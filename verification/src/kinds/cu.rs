//! Computing-unit kind: the pair of operator and dataset that identifies
//! one reusable unit of computation.

use vstd::prelude::*;
use crate::app::kind::{dec_operator, decode_operator, enc_operator, encode_operator, lemma_dec_enc_operator};
use crate::kinds::dataset::{dec_dataset, decode_dataset, enc_dataset, encode_dataset, lemma_dec_enc_dataset};
use crate::traits::Serialization;

verus! {

#[derive(Debug, Clone, Copy, PartialEq, Eq, Structural, Hash)]
pub struct Kind {
    pub opk: crate::kinds::Operator,
    pub dsk: crate::kinds::Dataset,
}

impl Kind {
    pub fn new(opk: crate::kinds::Operator, dsk: crate::kinds::Dataset) -> (r: Self)
        ensures
            r == (Kind { opk, dsk }),
    {
        Kind { opk, dsk }
    }

    pub fn get_opk(&self) -> (r: &crate::kinds::Operator)
        ensures
            r == self.opk,
    {
        &self.opk
    }

    pub fn get_dsk(&self) -> (r: &crate::kinds::Dataset)
        ensures
            r == self.dsk,
    {
        &self.dsk
    }
}

impl Default for Kind {
    fn default() -> (r: Self)
        ensures
            r == (Kind {
                opk: crate::kinds::Operator::OpenBabelSSMatching,
                dsk: crate::kinds::Dataset::TestChembl,
            }),
    {
        Kind::new(crate::kinds::Operator::OpenBabelSSMatching, crate::kinds::Dataset::TestChembl)
    }
}

/// The canonical encoding of a computing-unit kind: the operator kind,
/// then the dataset kind.
pub open spec fn enc_cu(k: Kind) -> Seq<char> {
    enc_operator(k.opk) + enc_dataset(k.dsk)
}

pub open spec fn dec_cu(s: Seq<char>) -> Option<(Kind, Seq<char>)> {
    match dec_operator(s) {
        Some((opk, r)) => match dec_dataset(r) {
            Some((dsk, r2)) => Some((Kind { opk, dsk }, r2)),
            None => None,
        },
        None => None,
    }
}

/// Decoding inverts encoding for computing-unit kinds.
pub proof fn lemma_dec_enc_cu(k: Kind, t: Seq<char>)
    ensures
        dec_cu(enc_cu(k) + t) == Some((k, t)),
{
    assert(enc_cu(k) + t =~= enc_operator(k.opk) + (enc_dataset(k.dsk) + t));
    lemma_dec_enc_operator(k.opk, enc_dataset(k.dsk) + t);
    lemma_dec_enc_dataset(k.dsk, t);
}

pub fn encode_cu(out: &mut String, k: &Kind)
    ensures
        final(out)@ == old(out)@ + enc_cu(*k),
{
    encode_operator(out, &k.opk);
    encode_dataset(out, &k.dsk);
    proof {
        assert(out@ =~= old(out)@ + enc_cu(*k));
    }
}

pub fn decode_cu(s: &str, pos: usize) -> (r: Option<(Kind, usize)>)
    requires
        pos <= s@.len(),
    ensures
        match r {
            Some(vp) => pos <= vp.1 <= s@.len() && dec_cu(s@.subrange(pos as int, s@.len() as int))
                == Some((vp.0, s@.subrange(vp.1 as int, s@.len() as int))),
            None => dec_cu(s@.subrange(pos as int, s@.len() as int)) is None,
        },
{
    match decode_operator(s, pos) {
        Some((opk, p1)) => match decode_dataset(s, p1) {
            Some((dsk, p2)) => Some((Kind { opk, dsk }, p2)),
            None => None,
        },
        None => None,
    }
}

impl Serialization for Kind {
    type Repr = Kind;

    open spec fn repr(&self) -> Kind {
        *self
    }

    open spec fn serial(&self) -> Seq<char> {
        enc_cu(*self)
    }

    open spec fn deserial(s: Seq<char>) -> Option<Self> {
        match dec_cu(s) {
            Some((v, r)) => if r.len() == 0 {
                Some(v)
            } else {
                None
            },
            None => None,
        }
    }

    fn ser_to(&self) -> (r: crate::traits::SerializedFormat) {
        let mut out = String::new();
        encode_cu(&mut out, self);
        proof {
            assert(out@ =~= enc_cu(*self));
        }
        out
    }

    fn ser_from(content: &crate::traits::SerializedFormat) -> (r: Self) {
        let len = content.as_str().unicode_len();
        match decode_cu(content.as_str(), 0) {
            Some((v, p)) => {
                proof {
                    assert(content@.subrange(0, content@.len() as int) =~= content@);
                }
                if p == len {
                    proof {
                        assert(content@.subrange(p as int, content@.len() as int).len() == 0);
                    }
                    v
                } else {
                    proof {
                        assert(content@.subrange(p as int, content@.len() as int).len() != 0);
                        assert(false);
                    }
                    unreached()
                }
            },
            None => {
                proof {
                    assert(content@.subrange(0, content@.len() as int) =~= content@);
                    assert(false);
                }
                unreached()
            },
        }
    }

    proof fn lemma_round_trip(&self) {
        lemma_dec_enc_cu(*self, Seq::empty());
        assert(enc_cu(*self) + Seq::empty() =~= enc_cu(*self));
    }
}

} // verus!
