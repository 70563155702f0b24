//! Requirement: the immutable specification of one job.

use vstd::prelude::*;
use crate::app::kind::{dec_operator, decode_operator, enc_operator, encode_operator, lemma_dec_enc_operator};
use crate::kinds::dataset::{dec_dataset, decode_dataset, enc_dataset, encode_dataset, lemma_dec_enc_dataset};
use crate::serial::{dec_str, decode_str, enc_str, encode_str, lemma_dec_enc_str};
use crate::traits::{Serialization, TraitInput};

verus! {

/// The canonical job specification: a serialized input together with the
/// operator and dataset kinds.  Two equal requirements denote the same
/// computation; a requirement is never mutated after construction.
#[derive(Debug, Clone, PartialEq, Eq, Hash)]
pub struct Requirement {
    pub ji: crate::traits::SerializedFormat,
    pub opk: crate::kinds::Operator,
    pub dsk: crate::kinds::Dataset,
}

impl Requirement {
    pub fn new(
        ji: crate::traits::SerializedFormat,
        opk: crate::kinds::Operator,
        dsk: crate::kinds::Dataset,
    ) -> (r: Self)
        ensures
            r == (Requirement { ji, opk, dsk }),
    {
        Requirement { ji, opk, dsk }
    }

    pub fn get_ji(&self) -> (r: &crate::traits::SerializedFormat)
        ensures
            r == self.ji,
    {
        &self.ji
    }

    pub fn get_opk(&self) -> (r: &crate::kinds::Operator)
        ensures
            r == self.opk,
    {
        &self.opk
    }

    pub fn get_dsk(&self) -> (r: &crate::kinds::Dataset)
        ensures
            r == self.dsk,
    {
        &self.dsk
    }

    /// The computing-unit kind this requirement asks for, usable as the
    /// report-grouping key and as a cache key for identical requests.
    pub fn generate_cuk(&self) -> (r: crate::kinds::ComputingUnit)
        ensures
            r == (crate::kinds::ComputingUnit { opk: self.opk, dsk: self.dsk }),
    {
        crate::kinds::ComputingUnit::new(self.opk, self.dsk)
    }

    /// A ready-made GMX-command requirement over the default input.
    pub fn requirement_gromacs_for_tests() -> (r: Self)
        ensures
            r.opk == crate::kinds::Operator::GromacsRunGMXCommand,
            r.dsk == crate::kinds::Dataset::Empty,
            exists|d: crate::app::chem::gromacs::gmx_command::Input|
                (#[trigger] d.is_default()) && r.ji@ == d.serial(),
    {
        let input = crate::app::chem::gromacs::gmx_command::Input::default();
        let ji = input.ser_to();
        proof {
            assert(input.is_default() && ji@ == input.serial());
        }
        Requirement {
            ji,
            opk: crate::kinds::Operator::GromacsRunGMXCommand,
            dsk: crate::kinds::Dataset::Empty,
        }
    }

    /// A ready-made substructure-match requirement over the test corpus.
    pub fn requirement_openbabel_for_tests() -> (r: Self)
        ensures
            r.ji@ == "c1cccc1N=O"@,
            r.opk == crate::kinds::Operator::OpenBabelSSMatching,
            r.dsk == crate::kinds::Dataset::TestChembl,
    {
        Requirement {
            ji: String::from_str("c1cccc1N=O"),
            opk: crate::kinds::Operator::OpenBabelSSMatching,
            dsk: crate::kinds::Dataset::TestChembl,
        }
    }
}

/// The canonical encoding of a requirement: the serialized input, the
/// operator kind and the dataset kind, in that order.
pub open spec fn enc_requirement(x: Requirement) -> Seq<char> {
    enc_str(x.ji@) + enc_operator(x.opk) + enc_dataset(x.dsk)
}

/// The observable content of a requirement.
pub type RequirementRepr = (Seq<char>, crate::kinds::Operator, crate::kinds::Dataset);

pub open spec fn dec_requirement(s: Seq<char>) -> Option<(RequirementRepr, Seq<char>)> {
    match dec_str(s) {
        Some((ji, r)) => match dec_operator(r) {
            Some((opk, r2)) => match dec_dataset(r2) {
                Some((dsk, r3)) => Some(((ji, opk, dsk), r3)),
                None => None,
            },
            None => None,
        },
        None => None,
    }
}

/// Decoding inverts encoding for requirements.
pub proof fn lemma_dec_enc_requirement(x: Requirement, t: Seq<char>)
    ensures
        dec_requirement(enc_requirement(x) + t) == Some(((x.ji@, x.opk, x.dsk), t)),
{
    let t1 = enc_operator(x.opk) + (enc_dataset(x.dsk) + t);
    assert(enc_requirement(x) + t =~= enc_str(x.ji@) + t1);
    lemma_dec_enc_str(x.ji@, t1);
    lemma_dec_enc_operator(x.opk, enc_dataset(x.dsk) + t);
    lemma_dec_enc_dataset(x.dsk, t);
}

pub fn encode_requirement(out: &mut String, x: &Requirement)
    ensures
        final(out)@ == old(out)@ + enc_requirement(*x),
{
    encode_str(out, x.ji.as_str());
    encode_operator(out, &x.opk);
    encode_dataset(out, &x.dsk);
    proof {
        assert(out@ =~= old(out)@ + enc_requirement(*x));
    }
}

pub fn decode_requirement(s: &str, pos: usize) -> (r: Option<(Requirement, usize)>)
    requires
        pos <= s@.len(),
    ensures
        match r {
            Some(vp) => pos <= vp.1 <= s@.len() && dec_requirement(
                s@.subrange(pos as int, s@.len() as int),
            ) == Some(((vp.0.ji@, vp.0.opk, vp.0.dsk), s@.subrange(vp.1 as int, s@.len() as int))),
            None => dec_requirement(s@.subrange(pos as int, s@.len() as int)) is None,
        },
{
    match decode_str(s, pos) {
        Some((ji, p1)) => match decode_operator(s, p1) {
            Some((opk, p2)) => match decode_dataset(s, p2) {
                Some((dsk, p3)) => Some((Requirement { ji, opk, dsk }, p3)),
                None => None,
            },
            None => None,
        },
        None => None,
    }
}

impl Serialization for Requirement {
    type Repr = RequirementRepr;

    open spec fn repr(&self) -> RequirementRepr {
        (self.ji@, self.opk, self.dsk)
    }

    open spec fn serial(&self) -> Seq<char> {
        enc_requirement(*self)
    }

    open spec fn deserial(s: Seq<char>) -> Option<RequirementRepr> {
        match dec_requirement(s) {
            Some((v, r)) => if r.len() == 0 {
                Some(v)
            } else {
                None
            },
            None => None,
        }
    }

    fn ser_to(&self) -> (r: crate::traits::SerializedFormat) {
        let mut out = String::new();
        encode_requirement(&mut out, self);
        proof {
            assert(out@ =~= enc_requirement(*self));
        }
        out
    }

    fn ser_from(content: &crate::traits::SerializedFormat) -> (r: Self) {
        let len = content.as_str().unicode_len();
        match decode_requirement(content.as_str(), 0) {
            Some((v, p)) => {
                proof {
                    assert(content@.subrange(0, content@.len() as int) =~= content@);
                }
                if p == len {
                    proof {
                        assert(content@.subrange(p as int, content@.len() as int).len() == 0);
                    }
                    v
                } else {
                    proof {
                        assert(content@.subrange(p as int, content@.len() as int).len() != 0);
                        assert(false);
                    }
                    unreached()
                }
            },
            None => {
                proof {
                    assert(content@.subrange(0, content@.len() as int) =~= content@);
                    assert(false);
                }
                unreached()
            },
        }
    }

    proof fn lemma_round_trip(&self) {
        lemma_dec_enc_requirement(*self, Seq::empty());
        assert(enc_requirement(*self) + Seq::empty() =~= enc_requirement(*self));
    }
}

} // verus!
