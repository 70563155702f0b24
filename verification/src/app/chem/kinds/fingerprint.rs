//! Fingerprint kinds, across the packages that can generate them.

use vstd::prelude::*;
use crate::serial::{dec_nat, enc_nat};
use crate::traits::Serialization;
use crate::app::chem::openbabel::kinds::fingerprint as obf;
use crate::utils::str_eq;

verus! {

/// Why a fingerprint name failed to parse.
#[derive(Debug, Clone, PartialEq, Eq)]
pub enum ParseStringError {
    NotThreeParts(String),
    NotIntegerNbits(String),
    TypeNotFound(String, String),
}

#[derive(Debug, Clone, Copy, PartialEq, Eq, Structural, Hash)]
pub enum Kind {
    OpenBabel { kind: crate::app::chem::openbabel::kinds::Fingerprint },
}

impl Default for Kind {
    fn default() -> (r: Self)
        ensures
            r == (Kind::OpenBabel {
                kind: crate::app::chem::openbabel::kinds::Fingerprint::ECFP4 { nbits: 2048 },
            }),
    {
        Kind::OpenBabel { kind: crate::app::chem::openbabel::kinds::Fingerprint::ECFP4 { nbits: 2048 } }
    }
}

impl Kind {
    /// The width of the bit-vector this kind generates.
    pub open spec fn spec_nbits(self) -> u32 {
        match self {
            Kind::OpenBabel { kind } => kind.spec_nbits(),
        }
    }

    pub fn nbits(&self) -> (r: u32)
        ensures
            r == self.spec_nbits(),
    {
        match self {
            Kind::OpenBabel { kind } => kind.nbits(),
        }
    }

    /// A width the fingerprint generator handles uniformly: at least one
    /// word, and a power of two, so that the word count of what comes
    /// back is the same whether a structure parsed or not.
    pub open spec fn spec_width_ok(self) -> bool {
        self.spec_nbits() >= 32 && (self.spec_nbits() & ((self.spec_nbits() - 1) as u32)) == 0
    }

    pub fn width_ok(&self) -> (r: bool)
        ensures
            r == self.spec_width_ok(),
    {
        let n = self.nbits();
        n >= 32 && (n & (n - 1)) == 0
    }

    /// Whether the family's bits are computed in memory from the texts
    /// alone.  The FP3 and FP4 families take their patterns from data
    /// files on disk, so what they generate depends on the environment.
    pub open spec fn spec_pattern_file_free(self) -> bool {
        match self {
            Kind::OpenBabel { kind } => match kind {
                crate::app::chem::openbabel::kinds::Fingerprint::FP3 { .. } => false,
                crate::app::chem::openbabel::kinds::Fingerprint::FP4 { .. } => false,
                _ => true,
            },
        }
    }

    pub fn pattern_file_free(&self) -> (r: bool)
        ensures
            r == self.spec_pattern_file_free(),
    {
        match self {
            Kind::OpenBabel { kind } => match kind {
                crate::app::chem::openbabel::kinds::Fingerprint::FP3 { .. } => false,
                crate::app::chem::openbabel::kinds::Fingerprint::FP4 { .. } => false,
                _ => true,
            },
        }
    }

    pub fn kind_openbabel_fp2(nbits: u32) -> (r: Kind)
        ensures
            r == (Kind::OpenBabel {
                kind: crate::app::chem::openbabel::kinds::Fingerprint::FP2 { nbits },
            }),
    {
        Kind::OpenBabel { kind: crate::app::chem::openbabel::kinds::Fingerprint::FP2 { nbits } }
    }

    pub fn kind_openbabel_fp3(nbits: u32) -> (r: Kind)
        ensures
            r == (Kind::OpenBabel {
                kind: crate::app::chem::openbabel::kinds::Fingerprint::FP3 { nbits },
            }),
    {
        Kind::OpenBabel { kind: crate::app::chem::openbabel::kinds::Fingerprint::FP3 { nbits } }
    }

    pub fn kind_openbabel_fp4(nbits: u32) -> (r: Kind)
        ensures
            r == (Kind::OpenBabel {
                kind: crate::app::chem::openbabel::kinds::Fingerprint::FP4 { nbits },
            }),
    {
        Kind::OpenBabel { kind: crate::app::chem::openbabel::kinds::Fingerprint::FP4 { nbits } }
    }

    pub fn kind_openbabel_ecfp0(nbits: u32) -> (r: Kind)
        ensures
            r == (Kind::OpenBabel {
                kind: crate::app::chem::openbabel::kinds::Fingerprint::ECFP0 { nbits },
            }),
    {
        Kind::OpenBabel { kind: crate::app::chem::openbabel::kinds::Fingerprint::ECFP0 { nbits } }
    }

    pub fn kind_openbabel_ecfp2(nbits: u32) -> (r: Kind)
        ensures
            r == (Kind::OpenBabel {
                kind: crate::app::chem::openbabel::kinds::Fingerprint::ECFP2 { nbits },
            }),
    {
        Kind::OpenBabel { kind: crate::app::chem::openbabel::kinds::Fingerprint::ECFP2 { nbits } }
    }

    pub fn kind_openbabel_ecfp4(nbits: u32) -> (r: Kind)
        ensures
            r == (Kind::OpenBabel {
                kind: crate::app::chem::openbabel::kinds::Fingerprint::ECFP4 { nbits },
            }),
    {
        Kind::OpenBabel { kind: crate::app::chem::openbabel::kinds::Fingerprint::ECFP4 { nbits } }
    }

    pub fn kind_openbabel_ecfp6(nbits: u32) -> (r: Kind)
        ensures
            r == (Kind::OpenBabel {
                kind: crate::app::chem::openbabel::kinds::Fingerprint::ECFP6 { nbits },
            }),
    {
        Kind::OpenBabel { kind: crate::app::chem::openbabel::kinds::Fingerprint::ECFP6 { nbits } }
    }

    pub fn kind_openbabel_ecfp8(nbits: u32) -> (r: Kind)
        ensures
            r == (Kind::OpenBabel {
                kind: crate::app::chem::openbabel::kinds::Fingerprint::ECFP8 { nbits },
            }),
    {
        Kind::OpenBabel { kind: crate::app::chem::openbabel::kinds::Fingerprint::ECFP8 { nbits } }
    }

    pub fn kind_openbabel_ecfp10(nbits: u32) -> (r: Kind)
        ensures
            r == (Kind::OpenBabel {
                kind: crate::app::chem::openbabel::kinds::Fingerprint::ECFP10 { nbits },
            }),
    {
        Kind::OpenBabel { kind: crate::app::chem::openbabel::kinds::Fingerprint::ECFP10 { nbits } }
    }

    /// The kind named by package and fingerprint family, if one exists.
    pub open spec fn spec_new(pkg: Seq<char>, fp: Seq<char>, nbits: u32) -> Option<Kind> {
        if pkg == "ob"@ {
            if fp == "fp2"@ {
                Some(Kind::OpenBabel { kind: crate::app::chem::openbabel::kinds::Fingerprint::FP2 { nbits } })
            } else if fp == "fp3"@ {
                Some(Kind::OpenBabel { kind: crate::app::chem::openbabel::kinds::Fingerprint::FP3 { nbits } })
            } else if fp == "fp4"@ {
                Some(Kind::OpenBabel { kind: crate::app::chem::openbabel::kinds::Fingerprint::FP4 { nbits } })
            } else if fp == "ecfp0"@ {
                Some(Kind::OpenBabel { kind: crate::app::chem::openbabel::kinds::Fingerprint::ECFP0 { nbits } })
            } else if fp == "ecfp2"@ {
                Some(Kind::OpenBabel { kind: crate::app::chem::openbabel::kinds::Fingerprint::ECFP2 { nbits } })
            } else if fp == "ecfp4"@ {
                Some(Kind::OpenBabel { kind: crate::app::chem::openbabel::kinds::Fingerprint::ECFP4 { nbits } })
            } else if fp == "ecfp6"@ {
                Some(Kind::OpenBabel { kind: crate::app::chem::openbabel::kinds::Fingerprint::ECFP6 { nbits } })
            } else if fp == "ecfp8"@ {
                Some(Kind::OpenBabel { kind: crate::app::chem::openbabel::kinds::Fingerprint::ECFP8 { nbits } })
            } else if fp == "ecfp10"@ {
                Some(Kind::OpenBabel { kind: crate::app::chem::openbabel::kinds::Fingerprint::ECFP10 { nbits } })
            } else {
                None
            }
        } else {
            None
        }
    }

    pub fn new(pkg_str: &str, fp_str: &str, nbits: u32) -> (r: Result<Self, ParseStringError>)
        ensures
            match r {
                Ok(k) => Self::spec_new(pkg_str@, fp_str@, nbits) == Some(k),
                Err(e) => Self::spec_new(pkg_str@, fp_str@, nbits) is None && match e {
                    ParseStringError::TypeNotFound(a, b) => a@ == pkg_str@ && b@ == fp_str@,
                    _ => false,
                },
            },
    {
        proof {
            reveal_strlit("ob");
            reveal_strlit("fp2");
            reveal_strlit("fp3");
            reveal_strlit("fp4");
            reveal_strlit("ecfp0");
            reveal_strlit("ecfp2");
            reveal_strlit("ecfp4");
            reveal_strlit("ecfp6");
            reveal_strlit("ecfp8");
            reveal_strlit("ecfp10");
        }
        if str_eq(pkg_str, "ob") {
            if str_eq(fp_str, "fp2") {
                Ok(Self::kind_openbabel_fp2(nbits))
            } else if str_eq(fp_str, "fp3") {
                Ok(Self::kind_openbabel_fp3(nbits))
            } else if str_eq(fp_str, "fp4") {
                Ok(Self::kind_openbabel_fp4(nbits))
            } else if str_eq(fp_str, "ecfp0") {
                Ok(Self::kind_openbabel_ecfp0(nbits))
            } else if str_eq(fp_str, "ecfp2") {
                Ok(Self::kind_openbabel_ecfp2(nbits))
            } else if str_eq(fp_str, "ecfp4") {
                Ok(Self::kind_openbabel_ecfp4(nbits))
            } else if str_eq(fp_str, "ecfp6") {
                Ok(Self::kind_openbabel_ecfp6(nbits))
            } else if str_eq(fp_str, "ecfp8") {
                Ok(Self::kind_openbabel_ecfp8(nbits))
            } else if str_eq(fp_str, "ecfp10") {
                Ok(Self::kind_openbabel_ecfp10(nbits))
            } else {
                Err(ParseStringError::TypeNotFound(String::from_str(pkg_str), String::from_str(fp_str)))
            }
        } else {
            Err(ParseStringError::TypeNotFound(String::from_str(pkg_str), String::from_str(fp_str)))
        }
    }

    pub open spec fn spec_name(self) -> Seq<char> {
        match self {
            Kind::OpenBabel { kind } => match kind {
                crate::app::chem::openbabel::kinds::Fingerprint::FP2 { nbits } => "ob_fp2_"@
                    + enc_nat(nbits as nat),
                crate::app::chem::openbabel::kinds::Fingerprint::FP3 { nbits } => "ob_fp3_"@
                    + enc_nat(nbits as nat),
                crate::app::chem::openbabel::kinds::Fingerprint::FP4 { nbits } => "ob_fp4_"@
                    + enc_nat(nbits as nat),
                crate::app::chem::openbabel::kinds::Fingerprint::ECFP0 { nbits } => "ob_ecfp0_"@
                    + enc_nat(nbits as nat),
                crate::app::chem::openbabel::kinds::Fingerprint::ECFP2 { nbits } => "ob_ecfp2_"@
                    + enc_nat(nbits as nat),
                crate::app::chem::openbabel::kinds::Fingerprint::ECFP4 { nbits } => "ob_ecfp4_"@
                    + enc_nat(nbits as nat),
                crate::app::chem::openbabel::kinds::Fingerprint::ECFP6 { nbits } => "ob_ecfp6_"@
                    + enc_nat(nbits as nat),
                crate::app::chem::openbabel::kinds::Fingerprint::ECFP8 { nbits } => "ob_ecfp8_"@
                    + enc_nat(nbits as nat),
                crate::app::chem::openbabel::kinds::Fingerprint::ECFP10 { nbits } => "ob_ecfp10_"@
                    + enc_nat(nbits as nat),
            },
        }
    }

    /// The canonical textual name, `<package>_<family>_<nbits>`.
    pub fn to_string(&self) -> (r: String)
        ensures
            r@ == self.spec_name(),
    {
        proof {
            reveal_strlit("ob_fp2_");
            reveal_strlit("ob_fp3_");
            reveal_strlit("ob_fp4_");
            reveal_strlit("ob_ecfp0_");
            reveal_strlit("ob_ecfp2_");
            reveal_strlit("ob_ecfp4_");
            reveal_strlit("ob_ecfp6_");
            reveal_strlit("ob_ecfp8_");
            reveal_strlit("ob_ecfp10_");
        }
        let mut out = String::new();
        match self {
            Kind::OpenBabel { kind } => {
                match kind {
                    crate::app::chem::openbabel::kinds::Fingerprint::FP2 { .. } => out.append("ob_fp2_"),
                    crate::app::chem::openbabel::kinds::Fingerprint::FP3 { .. } => out.append("ob_fp3_"),
                    crate::app::chem::openbabel::kinds::Fingerprint::FP4 { .. } => out.append("ob_fp4_"),
                    crate::app::chem::openbabel::kinds::Fingerprint::ECFP0 { .. } => out.append("ob_ecfp0_"),
                    crate::app::chem::openbabel::kinds::Fingerprint::ECFP2 { .. } => out.append("ob_ecfp2_"),
                    crate::app::chem::openbabel::kinds::Fingerprint::ECFP4 { .. } => out.append("ob_ecfp4_"),
                    crate::app::chem::openbabel::kinds::Fingerprint::ECFP6 { .. } => out.append("ob_ecfp6_"),
                    crate::app::chem::openbabel::kinds::Fingerprint::ECFP8 { .. } => out.append("ob_ecfp8_"),
                    crate::app::chem::openbabel::kinds::Fingerprint::ECFP10 { .. } => out.append("ob_ecfp10_"),
                }
                let nbits = kind.nbits();
                crate::serial::encode_u64(&mut out, nbits as u64);
            },
        }
        out
    }

    /// Split `s` at its underscores; succeeds exactly when there are two.
    fn split3(s: &str) -> (r: Option<(String, String, String)>)
        ensures
            match r {
                Some(p) => s@ == p.0@ + seq!['_'] + p.1@ + seq!['_'] + p.2@
                    && (forall|j: int| 0 <= j < p.0@.len() ==> p.0@[j] != '_')
                    && (forall|j: int| 0 <= j < p.1@.len() ==> p.1@[j] != '_')
                    && (forall|j: int| 0 <= j < p.2@.len() ==> p.2@[j] != '_'),
                None => forall|a: Seq<char>, b: Seq<char>, c: Seq<char>|
                    (forall|j: int| 0 <= j < a.len() ==> a[j] != '_')
                    && (forall|j: int| 0 <= j < b.len() ==> b[j] != '_')
                    && (forall|j: int| 0 <= j < c.len() ==> c[j] != '_')
                    ==> s@ != a + seq!['_'] + b + seq!['_'] + c,
            },
    {
        let len = s.unicode_len();
        let mut first: Option<usize> = None;
        let mut second: Option<usize> = None;
        let mut i: usize = 0;
        let mut too_many = false;
        while i < len
            invariant
                i <= len,
                len == s@.len(),
                match first {
                    Some(p1) => p1 < i && s@[p1 as int] == '_' && (forall|j: int|
                        0 <= j < p1 ==> s@[j] != '_'),
                    None => forall|j: int| 0 <= j < i ==> s@[j] != '_',
                },
                match second {
                    Some(p2) => first is Some && first.unwrap() < p2 < i && s@[p2 as int] == '_'
                        && (forall|j: int| first.unwrap() < j < p2 ==> s@[j] != '_'),
                    None => first is Some ==> forall|j: int| first.unwrap() < j < i ==> s@[j] != '_',
                },
                too_many <==> (exists|j: int|
                    second is Some && second.unwrap() < j < i && s@[j] == '_'),
            decreases len - i,
        {
            let c = s.get_char(i);
            if c == '_' {
                if first.is_none() {
                    first = Some(i);
                } else if second.is_none() {
                    second = Some(i);
                } else {
                    too_many = true;
                }
            }
            i += 1;
        }
        if too_many || first.is_none() || second.is_none() {
            proof {
                assert forall|a: Seq<char>, b: Seq<char>, c: Seq<char>|
                    (forall|j: int| 0 <= j < a.len() ==> a[j] != '_')
                    && (forall|j: int| 0 <= j < b.len() ==> b[j] != '_')
                    && (forall|j: int| 0 <= j < c.len() ==> c[j] != '_')
                    implies s@ != a + seq!['_'] + b + seq!['_'] + c by {
                    let cand = a + seq!['_'] + b + seq!['_'] + c;
                    if s@ == cand {
                        let i1 = a.len() as int;
                        let i2 = a.len() + 1 + b.len();
                        assert(s@[i1] == '_');
                        assert(s@[i2 as int] == '_');
                        assert(forall|j: int| 0 <= j < s@.len() && j != i1 && j != i2
                            ==> s@[j] != '_');
                        if too_many {
                            let j = choose|j: int|
                                second is Some && second.unwrap() < j < i && s@[j] == '_';
                            assert(s@[first.unwrap() as int] == '_');
                            assert(s@[second.unwrap() as int] == '_');
                            assert(first.unwrap() < second.unwrap() < j);
                            assert(false);
                        } else if first.is_none() {
                            assert(s@[i1] != '_');
                            assert(false);
                        } else {
                            assert(second is None);
                            let p1 = first.unwrap() as int;
                            assert(p1 == i1 || p1 == i2);
                            assert(forall|j: int| p1 < j < s@.len() ==> s@[j] != '_');
                            assert(p1 == i2);
                            assert(s@[i1] == '_' && i1 < p1);
                            assert(false);
                        }
                    }
                }
            }
            return None;
        }
        let p1 = first.unwrap();
        let p2 = second.unwrap();
        let a = String::from_str(s.substring_char(0, p1));
        let b = String::from_str(s.substring_char(p1 + 1, p2));
        let c = String::from_str(s.substring_char(p2 + 1, len));
        proof {
            assert(s@ =~= s@.subrange(0, p1 as int) + seq!['_'] + s@.subrange(p1 + 1, p2 as int)
                + seq!['_'] + s@.subrange(p2 + 1, len as int));
        }
        Some((a, b, c))
    }

    /// Parse the whole of `s` as a decimal `u32`.
    fn parse_u32_all(s: &str) -> (r: Option<u32>)
        ensures
            match r {
                Some(v) => dec_nat(s@) is Some && dec_nat(s@).unwrap().0 == v as nat
                    && dec_nat(s@).unwrap().1.len() == 0,
                None => match dec_nat(s@) {
                    Some(p) => p.1.len() != 0 || p.0 > u32::MAX,
                    None => true,
                },
            },
    {
        let len = s.unicode_len();
        match crate::serial::decode_u32(s, 0) {
            Some((v, p2)) => {
                proof {
                    assert(s@.subrange(0, s@.len() as int) =~= s@);
                }
                if p2 == len {
                    proof {
                        assert(s@.subrange(p2 as int, s@.len() as int).len() == 0);
                    }
                    Some(v)
                } else {
                    proof {
                        assert(s@.subrange(p2 as int, s@.len() as int).len() != 0);
                    }
                    None
                }
            },
            None => {
                proof {
                    assert(s@.subrange(0, s@.len() as int) =~= s@);
                }
                None
            },
        }
    }
}

impl std::str::FromStr for Kind {
    type Err = ParseStringError;

    fn from_str(s: &str) -> Result<Self, Self::Err> {
        match Kind::split3(s) {
            Some((pkg, fp, nbits_str)) => match Kind::parse_u32_all(nbits_str.as_str()) {
                Some(nbits) => Kind::new(pkg.as_str(), fp.as_str(), nbits),
                None => Err(ParseStringError::NotIntegerNbits(nbits_str)),
            },
            None => Err(ParseStringError::NotThreeParts(s.to_owned())),
        }
    }
}

/// The canonical encoding of a fingerprint kind: a package tag and the
/// package's own encoding.
pub open spec fn enc_fingerprint(k: Kind) -> Seq<char> {
    match k {
        Kind::OpenBabel { kind } => seq!['O'] + obf::enc_ob_fingerprint(kind),
    }
}

pub open spec fn dec_fingerprint(s: Seq<char>) -> Option<(Kind, Seq<char>)> {
    if s.len() >= 1 && s[0] == 'O' {
        match obf::dec_ob_fingerprint(s.subrange(1, s.len() as int)) {
            Some((k, r)) => Some((Kind::OpenBabel { kind: k }, r)),
            None => None,
        }
    } else {
        None
    }
}

/// Decoding inverts encoding for fingerprint kinds.
pub proof fn lemma_dec_enc_fingerprint(k: Kind, t: Seq<char>)
    ensures
        dec_fingerprint(enc_fingerprint(k) + t) == Some((k, t)),
{
    match k {
        Kind::OpenBabel { kind } => {
            let e = enc_fingerprint(k) + t;
            assert(e.subrange(1, e.len() as int) =~= obf::enc_ob_fingerprint(kind) + t);
            obf::lemma_dec_enc_ob_fingerprint(kind, t);
        },
    }
}

pub fn encode_fingerprint(out: &mut String, k: &Kind)
    ensures
        final(out)@ == old(out)@ + enc_fingerprint(*k),
{
    proof {
        reveal_strlit("O");
        assert("O"@ =~= seq!['O']);
    }
    match k {
        Kind::OpenBabel { kind } => {
            out.append("O");
            obf::encode_ob_fingerprint(out, kind);
        },
    }
    proof {
        assert(out@ =~= old(out)@ + enc_fingerprint(*k));
    }
}

pub fn decode_fingerprint(s: &str, pos: usize) -> (r: Option<(Kind, usize)>)
    requires
        pos <= s@.len(),
    ensures
        match r {
            Some(vp) => pos <= vp.1 <= s@.len() && dec_fingerprint(
                s@.subrange(pos as int, s@.len() as int),
            ) == Some((vp.0, s@.subrange(vp.1 as int, s@.len() as int))),
            None => dec_fingerprint(s@.subrange(pos as int, s@.len() as int)) is None,
        },
{
    let ghost whole = s@.subrange(pos as int, s@.len() as int);
    let len = s.unicode_len();
    if pos >= len {
        return None;
    }
    let c = s.get_char(pos);
    proof {
        assert(whole[0] == s@[pos as int]);
        assert(whole.subrange(1, whole.len() as int) =~= s@.subrange(pos + 1, s@.len() as int));
    }
    if c != 'O' {
        return None;
    }
    match obf::decode_ob_fingerprint(s, pos + 1) {
        Some((k, p2)) => Some((Kind::OpenBabel { kind: k }, p2)),
        None => None,
    }
}

impl Serialization for Kind {
    type Repr = Kind;

    open spec fn repr(&self) -> Kind {
        *self
    }

    open spec fn serial(&self) -> Seq<char> {
        enc_fingerprint(*self)
    }

    open spec fn deserial(s: Seq<char>) -> Option<Self> {
        match dec_fingerprint(s) {
            Some((v, r)) => if r.len() == 0 {
                Some(v)
            } else {
                None
            },
            None => None,
        }
    }

    fn ser_to(&self) -> (r: crate::traits::SerializedFormat) {
        let mut out = String::new();
        encode_fingerprint(&mut out, self);
        proof {
            assert(out@ =~= enc_fingerprint(*self));
        }
        out
    }

    fn ser_from(content: &crate::traits::SerializedFormat) -> (r: Self) {
        let len = content.as_str().unicode_len();
        match decode_fingerprint(content.as_str(), 0) {
            Some((v, p)) => {
                proof {
                    assert(content@.subrange(0, content@.len() as int) =~= content@);
                }
                if p == len {
                    proof {
                        assert(content@.subrange(p as int, content@.len() as int).len() == 0);
                    }
                    v
                } else {
                    proof {
                        assert(content@.subrange(p as int, content@.len() as int).len() != 0);
                        assert(false);
                    }
                    unreached()
                }
            },
            None => {
                proof {
                    assert(content@.subrange(0, content@.len() as int) =~= content@);
                    assert(false);
                }
                unreached()
            },
        }
    }

    proof fn lemma_round_trip(&self) {
        lemma_dec_enc_fingerprint(*self, Seq::empty());
        assert(enc_fingerprint(*self) + Seq::empty() =~= enc_fingerprint(*self));
    }
}

} // verus!
