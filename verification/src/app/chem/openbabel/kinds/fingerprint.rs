//! Fingerprint kinds computed through OpenBabel.

use vstd::prelude::*;
use crate::serial::{dec_num_u32, decode_num_u32, enc_num, encode_num, lemma_dec_enc_num};
use crate::traits::Serialization;

verus! {

#[derive(Debug, Clone, Copy, PartialEq, Eq, Structural, Hash)]
pub enum Kind {
    FP2 { nbits: u32 },
    FP3 { nbits: u32 },
    FP4 { nbits: u32 },
    ECFP0 { nbits: u32 },
    ECFP2 { nbits: u32 },
    ECFP4 { nbits: u32 },
    ECFP6 { nbits: u32 },
    ECFP8 { nbits: u32 },
    ECFP10 { nbits: u32 },
}

impl Kind {
    /// The width of the bit-vector this kind generates.
    pub fn nbits(&self) -> (r: u32)
        ensures
            r == self.spec_nbits(),
    {
        match self {
            Kind::FP2 { nbits } => *nbits,
            Kind::FP3 { nbits } => *nbits,
            Kind::FP4 { nbits } => *nbits,
            Kind::ECFP0 { nbits } => *nbits,
            Kind::ECFP2 { nbits } => *nbits,
            Kind::ECFP4 { nbits } => *nbits,
            Kind::ECFP6 { nbits } => *nbits,
            Kind::ECFP8 { nbits } => *nbits,
            Kind::ECFP10 { nbits } => *nbits,
        }
    }

    pub open spec fn spec_nbits(self) -> u32 {
        match self {
            Kind::FP2 { nbits } => nbits,
            Kind::FP3 { nbits } => nbits,
            Kind::FP4 { nbits } => nbits,
            Kind::ECFP0 { nbits } => nbits,
            Kind::ECFP2 { nbits } => nbits,
            Kind::ECFP4 { nbits } => nbits,
            Kind::ECFP6 { nbits } => nbits,
            Kind::ECFP8 { nbits } => nbits,
            Kind::ECFP10 { nbits } => nbits,
        }
    }
}

impl Default for Kind {
    fn default() -> (r: Self)
        ensures
            r == (Kind::ECFP4 { nbits: 2048 }),
    {
        Kind::ECFP4 { nbits: 2048 }
    }
}

/// The canonical encoding of an OpenBabel fingerprint kind: a family tag
/// and the delimited bit width.
pub open spec fn enc_ob_fingerprint(k: Kind) -> Seq<char> {
    match k {
        Kind::FP2 { nbits } => seq!['a'] + enc_num(nbits as nat),
        Kind::FP3 { nbits } => seq!['b'] + enc_num(nbits as nat),
        Kind::FP4 { nbits } => seq!['c'] + enc_num(nbits as nat),
        Kind::ECFP0 { nbits } => seq!['d'] + enc_num(nbits as nat),
        Kind::ECFP2 { nbits } => seq!['e'] + enc_num(nbits as nat),
        Kind::ECFP4 { nbits } => seq!['f'] + enc_num(nbits as nat),
        Kind::ECFP6 { nbits } => seq!['g'] + enc_num(nbits as nat),
        Kind::ECFP8 { nbits } => seq!['h'] + enc_num(nbits as nat),
        Kind::ECFP10 { nbits } => seq!['i'] + enc_num(nbits as nat),
    }
}

pub open spec fn family_of_tag(c: char) -> Option<spec_fn(u32) -> Kind> {
    if c == 'a' {
        Some(|n: u32| Kind::FP2 { nbits: n })
    } else if c == 'b' {
        Some(|n: u32| Kind::FP3 { nbits: n })
    } else if c == 'c' {
        Some(|n: u32| Kind::FP4 { nbits: n })
    } else if c == 'd' {
        Some(|n: u32| Kind::ECFP0 { nbits: n })
    } else if c == 'e' {
        Some(|n: u32| Kind::ECFP2 { nbits: n })
    } else if c == 'f' {
        Some(|n: u32| Kind::ECFP4 { nbits: n })
    } else if c == 'g' {
        Some(|n: u32| Kind::ECFP6 { nbits: n })
    } else if c == 'h' {
        Some(|n: u32| Kind::ECFP8 { nbits: n })
    } else if c == 'i' {
        Some(|n: u32| Kind::ECFP10 { nbits: n })
    } else {
        None
    }
}

pub open spec fn dec_ob_fingerprint(s: Seq<char>) -> Option<(Kind, Seq<char>)> {
    if s.len() >= 1 {
        match family_of_tag(s[0]) {
            Some(make) => match dec_num_u32(s.subrange(1, s.len() as int)) {
                Some((n, r)) => Some((make(n), r)),
                None => None,
            },
            None => None,
        }
    } else {
        None
    }
}

/// Decoding inverts encoding for OpenBabel fingerprint kinds.
pub proof fn lemma_dec_enc_ob_fingerprint(k: Kind, t: Seq<char>)
    ensures
        dec_ob_fingerprint(enc_ob_fingerprint(k) + t) == Some((k, t)),
{
    let e = enc_ob_fingerprint(k) + t;
    let n = k.spec_nbits();
    assert(e.subrange(1, e.len() as int) =~= enc_num(n as nat) + t);
    lemma_dec_enc_num(n as nat, t);
}

pub fn encode_ob_fingerprint(out: &mut String, k: &Kind)
    ensures
        final(out)@ == old(out)@ + enc_ob_fingerprint(*k),
{
    proof {
        reveal_strlit("a");
        reveal_strlit("b");
        reveal_strlit("c");
        reveal_strlit("d");
        reveal_strlit("e");
        reveal_strlit("f");
        reveal_strlit("g");
        reveal_strlit("h");
        reveal_strlit("i");
        assert("a"@ =~= seq!['a']);
        assert("b"@ =~= seq!['b']);
        assert("c"@ =~= seq!['c']);
        assert("d"@ =~= seq!['d']);
        assert("e"@ =~= seq!['e']);
        assert("f"@ =~= seq!['f']);
        assert("g"@ =~= seq!['g']);
        assert("h"@ =~= seq!['h']);
        assert("i"@ =~= seq!['i']);
    }
    match k {
        Kind::FP2 { .. } => out.append("a"),
        Kind::FP3 { .. } => out.append("b"),
        Kind::FP4 { .. } => out.append("c"),
        Kind::ECFP0 { .. } => out.append("d"),
        Kind::ECFP2 { .. } => out.append("e"),
        Kind::ECFP4 { .. } => out.append("f"),
        Kind::ECFP6 { .. } => out.append("g"),
        Kind::ECFP8 { .. } => out.append("h"),
        Kind::ECFP10 { .. } => out.append("i"),
    }
    let n = k.nbits();
    encode_num(out, n as u64);
    proof {
        assert(out@ =~= old(out)@ + enc_ob_fingerprint(*k));
    }
}

pub fn decode_ob_fingerprint(s: &str, pos: usize) -> (r: Option<(Kind, usize)>)
    requires
        pos <= s@.len(),
    ensures
        match r {
            Some(vp) => pos <= vp.1 <= s@.len() && dec_ob_fingerprint(
                s@.subrange(pos as int, s@.len() as int),
            ) == Some((vp.0, s@.subrange(vp.1 as int, s@.len() as int))),
            None => dec_ob_fingerprint(s@.subrange(pos as int, s@.len() as int)) is None,
        },
{
    let ghost whole = s@.subrange(pos as int, s@.len() as int);
    let len = s.unicode_len();
    if pos >= len {
        return None;
    }
    let c = s.get_char(pos);
    proof {
        assert(whole[0] == s@[pos as int]);
        assert(whole.subrange(1, whole.len() as int) =~= s@.subrange(pos + 1, s@.len() as int));
    }
    if !(c == 'a' || c == 'b' || c == 'c' || c == 'd' || c == 'e' || c == 'f' || c == 'g'
        || c == 'h' || c == 'i') {
        return None;
    }
    match decode_num_u32(s, pos + 1) {
        Some((n, p2)) => {
            let k = if c == 'a' {
                Kind::FP2 { nbits: n }
            } else if c == 'b' {
                Kind::FP3 { nbits: n }
            } else if c == 'c' {
                Kind::FP4 { nbits: n }
            } else if c == 'd' {
                Kind::ECFP0 { nbits: n }
            } else if c == 'e' {
                Kind::ECFP2 { nbits: n }
            } else if c == 'f' {
                Kind::ECFP4 { nbits: n }
            } else if c == 'g' {
                Kind::ECFP6 { nbits: n }
            } else if c == 'h' {
                Kind::ECFP8 { nbits: n }
            } else {
                Kind::ECFP10 { nbits: n }
            };
            Some((k, p2))
        },
        None => None,
    }
}

impl Serialization for Kind {
    type Repr = Kind;

    open spec fn repr(&self) -> Kind {
        *self
    }

    open spec fn serial(&self) -> Seq<char> {
        enc_ob_fingerprint(*self)
    }

    open spec fn deserial(s: Seq<char>) -> Option<Self> {
        match dec_ob_fingerprint(s) {
            Some((v, r)) => if r.len() == 0 {
                Some(v)
            } else {
                None
            },
            None => None,
        }
    }

    fn ser_to(&self) -> (r: crate::traits::SerializedFormat) {
        let mut out = String::new();
        encode_ob_fingerprint(&mut out, self);
        proof {
            assert(out@ =~= enc_ob_fingerprint(*self));
        }
        out
    }

    fn ser_from(content: &crate::traits::SerializedFormat) -> (r: Self) {
        let len = content.as_str().unicode_len();
        match decode_ob_fingerprint(content.as_str(), 0) {
            Some((v, p)) => {
                proof {
                    assert(content@.subrange(0, content@.len() as int) =~= content@);
                }
                if p == len {
                    proof {
                        assert(content@.subrange(p as int, content@.len() as int).len() == 0);
                    }
                    v
                } else {
                    proof {
                        assert(content@.subrange(p as int, content@.len() as int).len() != 0);
                        assert(false);
                    }
                    unreached()
                }
            },
            None => {
                proof {
                    assert(content@.subrange(0, content@.len() as int) =~= content@);
                    assert(false);
                }
                unreached()
            },
        }
    }

    proof fn lemma_round_trip(&self) {
        lemma_dec_enc_ob_fingerprint(*self, Seq::empty());
        assert(enc_ob_fingerprint(*self) + Seq::empty() =~= enc_ob_fingerprint(*self));
    }
}

} // verus!
