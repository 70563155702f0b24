//! A job status paired with its block progress counts.

use vstd::prelude::*;

verus! {

#[derive(Debug, Clone, Copy, PartialEq, Eq, Structural)]
pub enum StatusLabel {
    Created,
    Processing,
    Completed,
    Cancelled,
    ErrorJobIDNotFound,
}

type ProgressTuple = (usize, usize, usize);

/// A status label with optional block progress: how many dividends are
/// waiting, processing and completed.
#[derive(Debug, Clone, Copy, PartialEq, Eq)]
pub struct Status {
    pub label: StatusLabel,
    pub progress: Option<ProgressTuple>,
}

impl Status {
    /// The total the three counts stand for, where progress is tracked.
    pub open spec fn spec_sum(self) -> Option<int> {
        match self.progress {
            Some(t) => Some(t.0 + t.1 + t.2),
            None => None,
        }
    }

    pub fn new(label: StatusLabel, progress: Option<ProgressTuple>) -> (r: Self)
        ensures
            r == (Status { label, progress }),
    {
        Status { label, progress }
    }

    pub fn is_created(&self) -> (r: bool)
        ensures
            r == (self.label is Created),
    {
        matches!(self.label, StatusLabel::Created)
    }

    pub fn is_processing(&self) -> (r: bool)
        ensures
            r == (self.label is Processing),
    {
        matches!(self.label, StatusLabel::Processing)
    }

    pub fn is_completed(&self) -> (r: bool)
        ensures
            r == (self.label is Completed),
    {
        matches!(self.label, StatusLabel::Completed)
    }

    pub fn is_error_job_not_found(&self) -> (r: bool)
        ensures
            r == (self.label is ErrorJobIDNotFound),
    {
        matches!(self.label, StatusLabel::ErrorJobIDNotFound)
    }

    /// How many dividends are completed, out of how many in total.
    pub fn count_completed(&self) -> (r: (usize, usize))
        requires
            match self.progress {
                Some(t) => t.0 + t.1 + t.2 <= usize::MAX,
                None => true,
            },
        ensures
            match self.progress {
                Some(t) => r.0 == t.2 && r.1 == t.0 + t.1 + t.2,
                None => r == (0usize, 0usize),
            },
    {
        match self.progress {
            Some((w, p, c)) => (c, w + p + c),
            None => (0, 0),
        }
    }

    /// Hand one waiting dividend to a worker.  From Created this starts
    /// the job: the label becomes Processing and the counts are set to
    /// one processing dividend among `dividends`.  From Processing one
    /// dividend moves from waiting to processing.  The block sum is
    /// unchanged from Processing; any other label leaves the status as
    /// it was.
    pub fn assign_task(&mut self, dividends: usize)
        requires
            dividends >= 1,
            old(self).label is Created || old(self).label is Processing,
            old(self).label is Processing ==> match old(self).progress {
                Some(t) => t.0 > 0 && t.0 + t.1 + t.2 <= usize::MAX,
                None => false,
            },
        ensures
            old(self).label is Created ==> *final(self) == (Status {
                label: StatusLabel::Processing,
                progress: Some(((dividends - 1) as usize, 1usize, 0usize)),
            }),
            old(self).label is Processing ==> final(self).label is Processing
                && final(self).progress == Some(
                (
                    (old(self).progress.unwrap().0 - 1) as usize,
                    (old(self).progress.unwrap().1 + 1) as usize,
                    old(self).progress.unwrap().2,
                ),
            ) && final(self).spec_sum() == old(self).spec_sum(),
    {
        match self.label {
            StatusLabel::Created => {
                self.label = StatusLabel::Processing;
                self.progress = Some((dividends - 1, 1, 0));
            },
            StatusLabel::Processing => {
                let (w, p, c) = self.progress.unwrap();
                self.progress = Some((w - 1, p + 1, c));
            },
            _ => {
                crate::logging::warn("job status: should not reach here");
            },
        }
    }

    /// Record one dividend as completed: one count moves from processing
    /// to completed, the block sum is unchanged, and when every dividend
    /// is completed the label becomes Completed.
    pub fn complete_task(&mut self, dividends: usize)
        requires
            old(self).label is Processing,
            match old(self).progress {
                Some(t) => t.1 > 0 && t.0 + t.1 + t.2 <= usize::MAX,
                None => false,
            },
        ensures
            final(self).progress == Some(
                (
                    old(self).progress.unwrap().0,
                    (old(self).progress.unwrap().1 - 1) as usize,
                    (old(self).progress.unwrap().2 + 1) as usize,
                ),
            ),
            final(self).spec_sum() == old(self).spec_sum(),
            final(self).label == if old(self).progress.unwrap().2 + 1 == dividends {
                StatusLabel::Completed
            } else {
                old(self).label
            },
    {
        match self.label {
            StatusLabel::Processing => {
                let (w, p, c) = self.progress.unwrap();
                self.progress = Some((w, p - 1, c + 1));
                if c + 1 == dividends {
                    self.label = StatusLabel::Completed;
                }
            },
            _ => {
                crate::logging::warn("job status: should not reach here");
            },
        }
    }
}

} // verus!
