//! The ReCGen build operation: from one molecule, the generated
//! candidate structures.
//!
//! The generation itself is the work of an external executable; this
//! module holds the input and output values, their canonical encoding,
//! and the duplicate-free merging of outputs.

use vstd::prelude::*;
use crate::kinds::cu::{dec_cu, decode_cu, enc_cu, encode_cu, lemma_dec_enc_cu};
use crate::serial::{
    dec_str, dec_str_list, decode_str, decode_str_list, enc_str, enc_str_list, encode_str,
    encode_str_list, lemma_dec_enc_str, lemma_dec_enc_str_list,
};
use crate::traits::Serialization;
use crate::utils::str_eq;

verus! {

/// Input of a build: one molecule in mol-file text.
#[derive(Debug, Clone, PartialEq)]
pub struct Input {
    pub mol: String,
}

/// Output of a build: the generated structures, kept free of duplicates.
#[derive(Debug, Clone, PartialEq)]
pub struct Output {
    pub results: Vec<crate::app::chem::types::SMILES>,
}

/// Whether the vector holds a string of this text.
pub fn contains_str(v: &Vec<String>, s: &str) -> (r: bool)
    ensures
        r == v.deep_view().contains(s@),
{
    let n = v.len();
    let mut i: usize = 0;
    while i < n
        invariant
            i <= n,
            n == v@.len(),
            forall|j: int| 0 <= j < i ==> (#[trigger] v.deep_view()[j]) != s@,
        decreases n - i,
    {
        if str_eq(v[i].as_str(), s) {
            proof {
                assert(v.deep_view()[i as int] == s@);
            }
            return true;
        }
        proof {
            assert(v.deep_view()[i as int] == v@[i as int]@);
        }
        i += 1;
    }
    proof {
        assert(!v.deep_view().contains(s@));
    }
    false
}

/// `acc` extended by the first `k` of `xs`, skipping what is already
/// present.
pub open spec fn merge_upto(acc: Seq<Seq<char>>, xs: Seq<Seq<char>>, k: int) -> Seq<Seq<char>>
    decreases k,
{
    if k <= 0 {
        acc
    } else {
        let pre = merge_upto(acc, xs, k - 1);
        if pre.contains(xs[k - 1]) {
            pre
        } else {
            pre.push(xs[k - 1])
        }
    }
}

impl Output {
    /// Append the other output's structures that are not yet present, in
    /// order; the other output is left as it is.
    pub fn append_unique(&mut self, other: &Output)
        ensures
            final(self).results.deep_view() == merge_upto(
                old(self).results.deep_view(),
                other.results.deep_view(),
                other.results.deep_view().len() as int,
            ),
    {
        let n = other.results.len();
        let mut k: usize = 0;
        while k < n
            invariant
                k <= n,
                n == other.results@.len(),
                self.results.deep_view() == merge_upto(
                    old(self).results.deep_view(),
                    other.results.deep_view(),
                    k as int,
                ),
            decreases n - k,
        {
            let ghost pre = self.results.deep_view();
            if !contains_str(&self.results, other.results[k].as_str()) {
                let item = other.results[k].clone();
                proof {
                    assert(cloned::<String>(other.results@[k as int], item));
                }
                self.results.push(item);
                proof {
                    assert(self.results.deep_view() =~= pre.push(
                        other.results.deep_view()[k as int],
                    ));
                }
            }
            proof {
                assert(other.results.deep_view()[k as int] == other.results@[k as int]@);
            }
            k += 1;
        }
    }
}

impl Serialization for Input {
    type Repr = Seq<char>;

    open spec fn repr(&self) -> Seq<char> {
        self.mol@
    }

    open spec fn serial(&self) -> Seq<char> {
        enc_str(self.mol@)
    }

    open spec fn deserial(s: Seq<char>) -> Option<Seq<char>> {
        match dec_str(s) {
            Some((v, r)) => if r.len() == 0 {
                Some(v)
            } else {
                None
            },
            None => None,
        }
    }

    fn ser_to(&self) -> (r: crate::traits::SerializedFormat) {
        let mut out = String::new();
        encode_str(&mut out, self.mol.as_str());
        proof {
            assert(out@ =~= self.serial());
        }
        out
    }

    fn ser_from(content: &crate::traits::SerializedFormat) -> (r: Self) {
        let len = content.as_str().unicode_len();
        proof {
            assert(content@.subrange(0, content@.len() as int) =~= content@);
        }
        match decode_str(content.as_str(), 0) {
            Some((v, p)) => {
                if p == len {
                    proof {
                        assert(content@.subrange(p as int, content@.len() as int).len() == 0);
                    }
                    Input { mol: v }
                } else {
                    proof {
                        assert(content@.subrange(p as int, content@.len() as int).len() != 0);
                        assert(false);
                    }
                    unreached()
                }
            },
            None => {
                proof {
                    assert(false);
                }
                unreached()
            },
        }
    }

    proof fn lemma_round_trip(&self) {
        lemma_dec_enc_str(self.mol@, Seq::empty());
        assert(self.serial() + Seq::empty() =~= self.serial());
    }
}

impl Serialization for Output {
    type Repr = Seq<Seq<char>>;

    open spec fn repr(&self) -> Seq<Seq<char>> {
        self.results.deep_view()
    }

    open spec fn serial(&self) -> Seq<char> {
        enc_str_list(self.results.deep_view())
    }

    open spec fn deserial(s: Seq<char>) -> Option<Seq<Seq<char>>> {
        match dec_str_list(s) {
            Some((v, r)) => if r.len() == 0 {
                Some(v)
            } else {
                None
            },
            None => None,
        }
    }

    fn ser_to(&self) -> (r: crate::traits::SerializedFormat) {
        let mut out = String::new();
        encode_str_list(&mut out, &self.results);
        proof {
            assert(out@ =~= self.serial());
        }
        out
    }

    fn ser_from(content: &crate::traits::SerializedFormat) -> (r: Self) {
        let len = content.as_str().unicode_len();
        proof {
            assert(content@.subrange(0, content@.len() as int) =~= content@);
        }
        match decode_str_list(content.as_str(), 0) {
            Some((v, p)) => {
                if p == len {
                    proof {
                        assert(content@.subrange(p as int, content@.len() as int).len() == 0);
                    }
                    Output { results: v }
                } else {
                    proof {
                        assert(content@.subrange(p as int, content@.len() as int).len() != 0);
                        assert(false);
                    }
                    unreached()
                }
            },
            None => {
                proof {
                    assert(false);
                }
                unreached()
            },
        }
    }

    proof fn lemma_round_trip(&self) {
        lemma_dec_enc_str_list(self.results.deep_view(), Seq::empty());
        assert(self.serial() + Seq::empty() =~= self.serial());
    }
}

impl crate::traits::TraitOutput for Output {
    open spec fn is_blank(&self) -> bool {
        self.results@.len() == 0
    }

    fn blank() -> (r: Self) {
        Output { results: Vec::new() }
    }

    fn clear(&mut self) {
        self.results.clear();
    }

    fn append(&mut self, other: &mut Self) {
        self.append_unique(other);
    }

    fn len(&self) -> usize {
        self.results.len()
    }
}

/// The observable content of a build report.
pub type BuildReportRepr = (Seq<char>, crate::kinds::ComputingUnit, Seq<char>, Seq<Seq<char>>);

/// The persisted summary of a build job.
#[derive(Debug, Clone, PartialEq)]
pub struct Report {
    pub job_id: crate::job::ID,
    pub cuk: crate::kinds::ComputingUnit,
    pub input: Input,
    pub output: Output,
}

/// The canonical encoding of a build report: job identifier,
/// computing-unit kind, input and output, in that order.
pub open spec fn enc_build_report(x: BuildReportRepr) -> Seq<char> {
    enc_str(x.0) + enc_cu(x.1) + enc_str(x.2) + enc_str_list(x.3)
}

pub open spec fn dec_build_report(s: Seq<char>) -> Option<(BuildReportRepr, Seq<char>)> {
    match dec_str(s) {
        Some((jid, r)) => match dec_cu(r) {
            Some((cuk, r2)) => match dec_str(r2) {
                Some((mol, r3)) => match dec_str_list(r3) {
                    Some((outp, r4)) => Some(((jid, cuk, mol, outp), r4)),
                    None => None,
                },
                None => None,
            },
            None => None,
        },
        None => None,
    }
}

pub proof fn lemma_dec_enc_build_report(x: BuildReportRepr, t: Seq<char>)
    ensures
        dec_build_report(enc_build_report(x) + t) == Some((x, t)),
{
    let t3 = enc_str_list(x.3) + t;
    let t2 = enc_str(x.2) + t3;
    let t1 = enc_cu(x.1) + t2;
    assert(enc_build_report(x) + t =~= enc_str(x.0) + t1);
    lemma_dec_enc_str(x.0, t1);
    assert(t1 =~= enc_cu(x.1) + t2);
    lemma_dec_enc_cu(x.1, t2);
    lemma_dec_enc_str(x.2, t3);
    lemma_dec_enc_str_list(x.3, t);
}

/// The duplicate-free merge, in order, of what the first `n` serialized
/// outputs decode to.
pub open spec fn spec_merged_outputs(sers: Seq<String>, n: int) -> Seq<Seq<char>>
    decreases n,
{
    if n <= 0 {
        Seq::empty()
    } else {
        let part = match <Output as Serialization>::deserial(sers[n - 1]@) {
            Some(v) => v,
            None => Seq::empty(),
        };
        merge_upto(spec_merged_outputs(sers, n - 1), part, part.len() as int)
    }
}

impl Report {
    pub open spec fn spec_repr(self) -> BuildReportRepr {
        (self.job_id@, self.cuk, self.input.mol@, self.output.results.deep_view())
    }

    /// Assemble the report for one job from the echoed serialized input
    /// and the ordered serialized outputs, merging the outputs in order
    /// and dropping duplicates.
    pub fn new(
        t: (
            crate::job::ID,
            crate::kinds::ComputingUnit,
            &crate::traits::SerializedFormat,
            &Vec<crate::traits::SerializedFormat>,
        ),
    ) -> (r: Report)
        requires
            <Input as Serialization>::deserial(t.2@) is Some,
            forall|i: int| 0 <= i < t.3@.len() ==> <Output as Serialization>::deserial(
                (#[trigger] t.3@[i])@,
            ) is Some,
        ensures
            r.job_id == t.0,
            r.cuk == t.1,
            Some(r.input.mol@) == <Input as Serialization>::deserial(t.2@),
            r.output.results.deep_view() == spec_merged_outputs(t.3@, t.3@.len() as int),
    {
        let (job_id, cuk, input_ser, output_sers) = t;
        let input = Input::ser_from(input_ser);
        let mut output = Output { results: Vec::new() };
        let n = output_sers.len();
        let mut i: usize = 0;
        while i < n
            invariant
                i <= n,
                n == output_sers@.len(),
                forall|j: int| 0 <= j < n ==> <Output as Serialization>::deserial(
                    (#[trigger] output_sers@[j])@,
                ) is Some,
                output.results.deep_view() == spec_merged_outputs(output_sers@, i as int),
            decreases n - i,
        {
            let part = Output::ser_from(&output_sers[i]);
            output.append_unique(&part);
            i += 1;
        }
        Report { job_id, cuk, input, output }
    }
}

impl Serialization for Report {
    type Repr = BuildReportRepr;

    open spec fn repr(&self) -> BuildReportRepr {
        self.spec_repr()
    }

    open spec fn serial(&self) -> Seq<char> {
        enc_build_report(self.spec_repr())
    }

    open spec fn deserial(s: Seq<char>) -> Option<BuildReportRepr> {
        match dec_build_report(s) {
            Some((v, r)) => if r.len() == 0 {
                Some(v)
            } else {
                None
            },
            None => None,
        }
    }

    fn ser_to(&self) -> (r: crate::traits::SerializedFormat) {
        let mut out = String::new();
        encode_str(&mut out, self.job_id.as_str());
        encode_cu(&mut out, &self.cuk);
        encode_str(&mut out, self.input.mol.as_str());
        encode_str_list(&mut out, &self.output.results);
        proof {
            assert(out@ =~= self.serial());
        }
        out
    }

    fn ser_from(content: &crate::traits::SerializedFormat) -> (r: Self) {
        let len = content.as_str().unicode_len();
        proof {
            assert(content@.subrange(0, content@.len() as int) =~= content@);
        }
        match decode_report(content.as_str(), 0) {
            Some((report, p)) => {
                if p == len {
                    proof {
                        assert(content@.subrange(p as int, content@.len() as int).len() == 0);
                    }
                    report
                } else {
                    proof {
                        assert(content@.subrange(p as int, content@.len() as int).len() != 0);
                        assert(false);
                    }
                    unreached()
                }
            },
            None => {
                proof {
                    assert(false);
                }
                unreached()
            },
        }
    }

    proof fn lemma_round_trip(&self) {
        lemma_dec_enc_build_report(self.spec_repr(), Seq::empty());
        assert(self.serial() + Seq::empty() =~= self.serial());
    }
}

/// Parse a whole report at character position `pos`.
pub fn decode_report(s: &str, pos: usize) -> (r: Option<(Report, usize)>)
    requires
        pos <= s@.len(),
    ensures
        match r {
            Some(vp) => pos <= vp.1 <= s@.len() && dec_build_report(
                s@.subrange(pos as int, s@.len() as int),
            ) == Some((vp.0.spec_repr(), s@.subrange(vp.1 as int, s@.len() as int))),
            None => dec_build_report(s@.subrange(pos as int, s@.len() as int)) is None,
        },
{
    match decode_str(s, pos) {
        Some((jid, p1)) => match decode_cu(s, p1) {
            Some((cuk, p2)) => match decode_str(s, p2) {
                Some((mol, p3)) => match decode_str_list(s, p3) {
                    Some((outp, p4)) => Some(
                        (
                            Report {
                                job_id: jid,
                                cuk,
                                input: Input { mol },
                                output: Output { results: outp },
                            },
                            p4,
                        ),
                    ),
                    None => None,
                },
                None => None,
            },
            None => None,
        },
        None => None,
    }
}

} // verus!
