//! The job lifecycle state machine.

use vstd::prelude::*;
use crate::traits::SerializedFormat;

verus! {

#[derive(Debug, Clone, Copy, PartialEq, Eq, Structural)]
pub enum Status {
    Created,
    Processing,
    CompletedSuccess,
    CompletedError,
    Cancelled,
    Unknown,
}

impl Status {
    pub open spec fn spec_is_completed(self) -> bool {
        self is CompletedSuccess || self is CompletedError
    }

    /// A job is completed exactly in the two terminal completion states.
    pub fn is_completed(&self) -> (r: bool)
        ensures
            r == self.spec_is_completed(),
    {
        matches!(self, Status::CompletedSuccess | Status::CompletedError)
    }
}

/// Progress of a job: a percentage in hundredths of a percent for
/// single-machine work, or the block counts (waiting, processing,
/// completed) for work split across machines.
#[derive(Debug, Clone, Copy, PartialEq, Eq, Structural)]
pub enum Progress {
    ByPercentage(u32),
    ByBlocks(usize, usize, usize),
}

/// Relies on chrono::Utc::now: the current time in milliseconds since the
/// epoch.  Nothing is promised of the value.
#[verifier::external_body]
fn now_millis() -> i64 {
    chrono::Utc::now().timestamp_millis()
}

fn generate_id() -> (r: crate::job::ID)
    ensures
        r@.len() == 32,
{
    crate::utils::generate_id(32)
}

/// One job: a requirement under execution across its dividends.
///
/// Created from a requirement and a divisor; mutated only through the
/// assign and complete operations; immutable once terminal.
#[derive(Debug, Clone, PartialEq)]
pub struct Job {
    pub id: crate::job::ID,
    pub requirement: super::Requirement,
    pub status: Status,
    pub progress: Progress,
    pub outputs: Vec<Option<SerializedFormat>>,
    pub error: Option<String>,
    pub time_submitted: i64,
    pub time_started: i64,
    pub time_completed: i64,
    pub cost: crate::job::CreditPoints,
}

impl Job {
    /// Every output slot has received a success completion.
    pub open spec fn all_filled(self) -> bool {
        forall|i: int| 0 <= i < self.outputs@.len() ==> self.outputs@[i] is Some
    }

    /// For block progress, waiting + processing + completed always equals
    /// the divisor the job was created with.
    pub open spec fn block_wf(self) -> bool {
        match self.progress {
            Progress::ByBlocks(w, p, c) => w + p + c == self.outputs@.len(),
            Progress::ByPercentage(_) => true,
        }
    }

    /// The state invariant every job reachable through this interface
    /// keeps: block counts sum to the divisor, a terminal error state
    /// holds an error and no other state does, and a successful job has
    /// every slot filled.
    pub open spec fn wf(self) -> bool {
        &&& self.block_wf()
        &&& (self.status is CompletedError <==> self.error is Some)
        &&& (self.status is CompletedSuccess ==> self.all_filled())
    }

    /// A fresh job over `requirement`, split into `divisor` dividends.
    /// Progress is tracked by blocks for multi-machine operators and by
    /// percentage otherwise; the kind of progress never changes again.
    pub fn new(requirement: super::Requirement, divisor: usize) -> (r: Self)
        ensures
            r.wf(),
            r.requirement == requirement,
            r.status is Created,
            r.outputs@.len() == divisor,
            forall|i: int| 0 <= i < r.outputs@.len() ==> r.outputs@[i] is None,
            r.error is None,
            r.cost == 0,
            r.id@.len() == 32,
            r.progress == (match requirement.opk.spec_computation_kind() {
                crate::kinds::ComputationKind::MultipleMachines => Progress::ByBlocks(
                    divisor,
                    0,
                    0,
                ),
                _ => Progress::ByPercentage(0),
            }),
    {
        let progress = match requirement.get_opk().computation_kind() {
            crate::kinds::ComputationKind::SingleMachineCPU
            | crate::kinds::ComputationKind::SingleMachineGPU => Progress::ByPercentage(0),
            crate::kinds::ComputationKind::MultipleMachines => Progress::ByBlocks(divisor, 0, 0),
        };
        let mut outputs: Vec<Option<SerializedFormat>> = Vec::new();
        let mut i: usize = 0;
        while i < divisor
            invariant
                i <= divisor,
                outputs@.len() == i,
                forall|j: int| 0 <= j < outputs@.len() ==> outputs@[j] is None,
            decreases divisor - i,
        {
            outputs.push(None);
            i += 1;
        }
        Job {
            id: generate_id(),
            requirement,
            status: Status::Created,
            progress,
            outputs,
            error: None,
            time_submitted: 0,
            time_started: 0,
            time_completed: 0,
            cost: 0,
        }
    }

    /// Record the submission time; nothing else changes.
    pub fn submit(&mut self)
        ensures
            final(self).id == old(self).id,
            final(self).requirement == old(self).requirement,
            final(self).status == old(self).status,
            final(self).progress == old(self).progress,
            final(self).outputs == old(self).outputs,
            final(self).error == old(self).error,
            final(self).cost == old(self).cost,
            final(self).time_started == old(self).time_started,
            final(self).time_completed == old(self).time_completed,
            old(self).wf() ==> final(self).wf(),
    {
        self.time_submitted = now_millis();
    }

    /// Hand one dividend to a worker.  The first assignment moves the job
    /// from Created to Processing and records the start time; with block
    /// progress one count moves from waiting to processing and the block
    /// sum is unchanged.
    pub fn assign_task(&mut self)
        requires
            old(self).wf(),
            old(self).status is Created || old(self).status is Processing,
            match old(self).progress {
                Progress::ByBlocks(w, p, c) => w > 0,
                Progress::ByPercentage(_) => true,
            },
        ensures
            final(self).wf(),
            final(self).status is Processing,
            final(self).progress == (match old(self).progress {
                Progress::ByBlocks(w, p, c) => Progress::ByBlocks((w - 1) as usize, (p + 1) as usize, c),
                Progress::ByPercentage(x) => Progress::ByPercentage(x),
            }),
            final(self).id == old(self).id,
            final(self).requirement == old(self).requirement,
            final(self).outputs == old(self).outputs,
            final(self).error == old(self).error,
            final(self).cost == old(self).cost,
            final(self).time_submitted == old(self).time_submitted,
            final(self).time_completed == old(self).time_completed,
            old(self).status is Processing ==> final(self).time_started == old(self).time_started,
    {
        let n = self.outputs.len();
        match self.progress {
            Progress::ByBlocks(w, p, c) => {
                self.progress = Progress::ByBlocks(w - 1, p + 1, c);
            },
            Progress::ByPercentage(_) => {},
        }
        if matches!(self.status, Status::Created) {
            self.status = Status::Processing;
            self.time_started = now_millis();
        }
    }

    /// Give one assigned dividend back to the waiting pool.
    pub fn reset_task(&mut self)
        requires
            old(self).wf(),
            match old(self).progress {
                Progress::ByBlocks(w, p, c) => p > 0,
                Progress::ByPercentage(_) => true,
            },
        ensures
            final(self).wf(),
            final(self).progress == (match old(self).progress {
                Progress::ByBlocks(w, p, c) => Progress::ByBlocks((w + 1) as usize, (p - 1) as usize, c),
                Progress::ByPercentage(x) => Progress::ByPercentage(x),
            }),
            final(self).id == old(self).id,
            final(self).requirement == old(self).requirement,
            final(self).status == old(self).status,
            final(self).outputs == old(self).outputs,
            final(self).error == old(self).error,
            final(self).cost == old(self).cost,
            final(self).time_submitted == old(self).time_submitted,
            final(self).time_started == old(self).time_started,
            final(self).time_completed == old(self).time_completed,
    {
        let n = self.outputs.len();
        match self.progress {
            Progress::ByBlocks(w, p, c) => {
                self.progress = Progress::ByBlocks(w + 1, p - 1, c);
            },
            Progress::ByPercentage(_) => {},
        }
    }

    /// Record a success for dividend `index`: its slot takes `output`,
    /// one block count moves from processing to completed, and the cost
    /// accumulates.  The job reaches CompletedSuccess exactly when this
    /// fills the last empty slot, and then records its completion time.
    pub fn complete_task_with_success(
        &mut self,
        index: usize,
        output: Option<SerializedFormat>,
        cost: &crate::job::CreditPoints,
    )
        requires
            old(self).wf(),
            old(self).status is Processing,
            index < old(self).outputs@.len(),
            match old(self).progress {
                Progress::ByBlocks(w, p, c) => p > 0,
                Progress::ByPercentage(_) => true,
            },
            old(self).cost + *cost <= u64::MAX,
        ensures
            final(self).wf(),
            final(self).outputs@ == old(self).outputs@.update(index as int, output),
            final(self).progress == (match old(self).progress {
                Progress::ByBlocks(w, p, c) => Progress::ByBlocks(w, (p - 1) as usize, (c + 1) as usize),
                Progress::ByPercentage(x) => Progress::ByPercentage(x),
            }),
            final(self).cost == old(self).cost + *cost,
            final(self).status == (if final(self).all_filled() {
                Status::CompletedSuccess
            } else {
                Status::Processing
            }),
            final(self).error is None,
            final(self).id == old(self).id,
            final(self).requirement == old(self).requirement,
            final(self).time_submitted == old(self).time_submitted,
            final(self).time_started == old(self).time_started,
            !final(self).all_filled() ==> final(self).time_completed == old(self).time_completed,
    {
        let n = self.outputs.len();
        match self.progress {
            Progress::ByBlocks(w, p, c) => {
                self.progress = Progress::ByBlocks(w, p - 1, c + 1);
            },
            Progress::ByPercentage(_) => {},
        }
        self.outputs.set(index, output);
        let mut filled = true;
        let mut i: usize = 0;
        let n = self.outputs.len();
        while i < n
            invariant
                i <= n,
                n == self.outputs@.len(),
                filled <==> (forall|j: int| 0 <= j < i ==> self.outputs@[j] is Some),
            decreases n - i,
        {
            if self.outputs[i].is_none() {
                filled = false;
            }
            i += 1;
        }
        if filled {
            self.status = Status::CompletedSuccess;
            self.time_completed = now_millis();
        }
        self.cost = self.cost + *cost;
    }

    /// Record a failure: the job terminates immediately as CompletedError
    /// carrying the error, whatever other dividends had already done, and
    /// the cost still accumulates.
    pub fn complete_task_with_error(&mut self, error: String, cost: &crate::job::CreditPoints)
        requires
            old(self).wf(),
            old(self).status is Processing,
            old(self).cost + *cost <= u64::MAX,
        ensures
            final(self).wf(),
            final(self).status is CompletedError,
            final(self).error == Some(error),
            final(self).cost == old(self).cost + *cost,
            final(self).id == old(self).id,
            final(self).requirement == old(self).requirement,
            final(self).progress == old(self).progress,
            final(self).outputs == old(self).outputs,
            final(self).time_submitted == old(self).time_submitted,
            final(self).time_started == old(self).time_started,
    {
        self.error = Some(error);
        self.status = Status::CompletedError;
        self.time_completed = now_millis();
        self.cost = self.cost + *cost;
    }

    /// Cancel a job that has not completed; only the status changes.
    pub fn cancel(&mut self)
        requires
            old(self).wf(),
            !old(self).status.spec_is_completed(),
        ensures
            final(self).wf(),
            final(self).status is Cancelled,
            final(self).id == old(self).id,
            final(self).requirement == old(self).requirement,
            final(self).progress == old(self).progress,
            final(self).outputs == old(self).outputs,
            final(self).error == old(self).error,
            final(self).cost == old(self).cost,
            final(self).time_submitted == old(self).time_submitted,
            final(self).time_started == old(self).time_started,
            final(self).time_completed == old(self).time_completed,
    {
        self.status = Status::Cancelled;
    }

    /// The outputs present in the slot sequence, in slot order.
    pub open spec fn present_outputs(s: Seq<Option<SerializedFormat>>) -> Seq<SerializedFormat>
        decreases s.len(),
    {
        if s.len() == 0 {
            Seq::empty()
        } else {
            match s[0] {
                Some(o) => seq![o] + Self::present_outputs(s.subrange(1, s.len() as int)),
                None => Self::present_outputs(s.subrange(1, s.len() as int)),
            }
        }
    }

    /// The collected result.  Until the job is terminal-completed this is
    /// empty with no error — never a partial view.  A job completed with
    /// an error exposes only that error; otherwise the outputs present,
    /// in slot order.
    pub fn get_result(&self) -> (r: super::JobResult)
        ensures
            !self.status.spec_is_completed() ==> r.outputs@.len() == 0 && r.error is None,
            self.status.spec_is_completed() ==> match self.error {
                Some(e) => r.outputs@.len() == 0 && r.error == Some(e),
                None => r.outputs@ == Self::present_outputs(self.outputs@) && r.error is None,
            },
    {
        if self.status.is_completed() {
            match &self.error {
                Some(error) => super::JobResult { outputs: Vec::new(), error: Some(error.clone()) },
                None => {
                    let mut outputs: Vec<SerializedFormat> = Vec::new();
                    let n = self.outputs.len();
                    let mut i: usize = 0;
                    while i < n
                        invariant
                            i <= n,
                            n == self.outputs@.len(),
                            outputs@ == Self::present_outputs(self.outputs@.subrange(0, i as int)),
                        decreases n - i,
                    {
                        match &self.outputs[i] {
                            Some(o) => outputs.push(o.clone()),
                            None => {},
                        }
                        proof {
                            lemma_present_outputs_step(self.outputs@, i as int);
                        }
                        i += 1;
                    }
                    proof {
                        assert(self.outputs@.subrange(0, n as int) =~= self.outputs@);
                    }
                    super::JobResult { outputs, error: None }
                },
            }
        } else {
            super::JobResult { outputs: Vec::new(), error: None }
        }
    }
}

/// Extending the scanned prefix by one slot appends its output, if any.
proof fn lemma_present_outputs_step(s: Seq<Option<SerializedFormat>>, i: int)
    requires
        0 <= i < s.len(),
    ensures
        Job::present_outputs(s.subrange(0, i + 1)) == (match s[i] {
            Some(o) => Job::present_outputs(s.subrange(0, i)) + seq![o],
            None => Job::present_outputs(s.subrange(0, i)),
        }),
    decreases i,
{
    let pre = s.subrange(0, i + 1);
    if i == 0 {
        assert(pre.len() == 1);
        assert(pre[0] == s[0]);
        assert(pre.subrange(1, 1) =~= Seq::<Option<SerializedFormat>>::empty());
        assert(s.subrange(0, 0) =~= Seq::<Option<SerializedFormat>>::empty());
        match s[0] {
            Some(o) => {
                assert(Job::present_outputs(pre) =~= seq![o]);
                assert(Job::present_outputs(s.subrange(0, 0)) + seq![o] =~= seq![o]);
            },
            None => {},
        }
    } else {
        let t = s.subrange(1, s.len() as int);
        lemma_present_outputs_step(t, i - 1);
        assert(pre.subrange(1, pre.len() as int) =~= t.subrange(0, i));
        assert(s.subrange(0, i).subrange(1, i) =~= t.subrange(0, i - 1));
        assert(t.subrange(0, i)[i - 1] == s[i]);
        assert(pre[0] == s[0]);
        assert(s.subrange(0, i)[0] == s[0]);
        match s[0] {
            Some(o) => {
                assert(Job::present_outputs(pre) == seq![o] + Job::present_outputs(t.subrange(0, i)));
                assert(Job::present_outputs(s.subrange(0, i)) == seq![o] + Job::present_outputs(
                    t.subrange(0, i - 1),
                ));
                match s[i] {
                    Some(o2) => {
                        assert(Job::present_outputs(t.subrange(0, i)) == Job::present_outputs(
                            t.subrange(0, i - 1),
                        ) + seq![o2]);
                        assert(seq![o] + (Job::present_outputs(t.subrange(0, i - 1)) + seq![o2])
                            =~= (seq![o] + Job::present_outputs(t.subrange(0, i - 1))) + seq![o2]);
                    },
                    None => {},
                }
            },
            None => {
                assert(Job::present_outputs(pre) == Job::present_outputs(t.subrange(0, i)));
                assert(Job::present_outputs(s.subrange(0, i)) == Job::present_outputs(
                    t.subrange(0, i - 1),
                ));
            },
        }
    }
}

/// Block-progress invariant: at every observable point of a well-formed
/// job with block progress, waiting + processing + completed equals the
/// divisor the job was created with.
pub proof fn lemma_block_progress_invariant(j: Job)
    requires
        j.wf(),
    ensures
        match j.progress {
            Progress::ByBlocks(w, p, c) => w + p + c == j.outputs@.len(),
            Progress::ByPercentage(_) => true,
        },
{
}

/// A well-formed job is CompletedSuccess only with every slot filled, and
/// CompletedError exactly when an error completion was recorded.
pub proof fn lemma_completion_states(j: Job)
    requires
        j.wf(),
    ensures
        j.status is CompletedSuccess ==> j.all_filled(),
        j.status is CompletedError <==> j.error is Some,
{
}

} // verus!
