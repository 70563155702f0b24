//! Operator kinds: the closed set of computations this system can run.

use vstd::prelude::*;
use crate::app::chem::kinds::fingerprint as fpc;
use crate::traits::Serialization;
use crate::utils::str_eq;

verus! {

/// How an operator executes: on one machine, tracked by percentage, or
/// split across machines, tracked by block counts.
#[derive(Debug, Clone, Copy, PartialEq, Eq, Structural)]
pub enum ComputationKind {
    SingleMachineCPU,
    SingleMachineGPU,
    MultipleMachines,
}

#[derive(Debug, Clone, Copy, PartialEq, Eq, Structural, Hash)]
pub enum Kind {
    OpenBabelSimilaritySearching(crate::app::chem::kinds::Fingerprint),
    OpenBabelSSMatching,
    ReCGenBuild,
    GromacsRunGMXCommand,
}

impl Kind {
    /// The similarity-search operator in its default configuration.
    pub fn default_ob_similarity_searching() -> (r: Self)
        ensures
            r == Kind::OpenBabelSimilaritySearching(
                crate::app::chem::kinds::Kind::OpenBabel {
                    kind: crate::app::chem::openbabel::kinds::Fingerprint::ECFP4 { nbits: 2048 },
                },
            ),
    {
        let fpk = crate::app::chem::kinds::Fingerprint::kind_openbabel_ecfp4(2048);
        Kind::OpenBabelSimilaritySearching(fpk)
    }

    pub fn is_openbabel(&self) -> (r: bool)
        ensures
            r == (self is OpenBabelSSMatching || self is OpenBabelSimilaritySearching),
    {
        match self {
            Self::OpenBabelSSMatching | Self::OpenBabelSimilaritySearching(_) => true,
            _ => false,
        }
    }

    pub open spec fn spec_computation_kind(self) -> ComputationKind {
        match self {
            Kind::OpenBabelSimilaritySearching(_) => ComputationKind::MultipleMachines,
            Kind::OpenBabelSSMatching => ComputationKind::MultipleMachines,
            Kind::ReCGenBuild => ComputationKind::SingleMachineCPU,
            Kind::GromacsRunGMXCommand => ComputationKind::SingleMachineCPU,
        }
    }

    /// The dataset-splitting operators run across machines; the
    /// process-invoking ones run on a single machine.
    pub fn computation_kind(&self) -> (r: ComputationKind)
        ensures
            r == self.spec_computation_kind(),
    {
        match self {
            Kind::OpenBabelSimilaritySearching(_) => ComputationKind::MultipleMachines,
            Kind::OpenBabelSSMatching => ComputationKind::MultipleMachines,
            Kind::ReCGenBuild => ComputationKind::SingleMachineCPU,
            Kind::GromacsRunGMXCommand => ComputationKind::SingleMachineCPU,
        }
    }

    pub open spec fn spec_app_name(self) -> Seq<char> {
        match self {
            Kind::OpenBabelSimilaritySearching(_) => "openbabel"@,
            Kind::OpenBabelSSMatching => "openbabel"@,
            Kind::ReCGenBuild => "my_presto"@,
            Kind::GromacsRunGMXCommand => "gromacs"@,
        }
    }

    /// Which application carries out this computation.
    pub fn app_name(&self) -> (r: &str)
        ensures
            r@ == self.spec_app_name(),
    {
        match self {
            Self::OpenBabelSSMatching | Self::OpenBabelSimilaritySearching(_) => "openbabel",
            Self::ReCGenBuild => "my_presto",
            Self::GromacsRunGMXCommand => "gromacs",
        }
    }

    pub open spec fn spec_name(self) -> Seq<char> {
        match self {
            Kind::OpenBabelSimilaritySearching(_) => "ob_sim"@,
            Kind::OpenBabelSSMatching => "ob_ss"@,
            Kind::ReCGenBuild => "recgen_build"@,
            Kind::GromacsRunGMXCommand => "gromacs_run_gmx_command"@,
        }
    }

    /// The canonical textual name of the kind.
    pub fn to_string(&self) -> (r: String)
        ensures
            r@ == self.spec_name(),
    {
        match self {
            Kind::OpenBabelSimilaritySearching(_) => String::from_str("ob_sim"),
            Kind::OpenBabelSSMatching => String::from_str("ob_ss"),
            Kind::ReCGenBuild => String::from_str("recgen_build"),
            Kind::GromacsRunGMXCommand => String::from_str("gromacs_run_gmx_command"),
        }
    }

    /// Parse the canonical textual name; a name with operator parameters
    /// takes them in their default configuration.  `None` exactly when
    /// `s` names no operator kind.
    pub fn from_name(s: &str) -> (r: Option<Kind>)
        ensures
            match r {
                Some(k) => s@ == k.spec_name(),
                None => forall|k: Kind| s@ != k.spec_name(),
            },
    {
        proof {
            reveal_strlit("ob_sim");
            reveal_strlit("ob_ss");
            reveal_strlit("recgen_build");
            reveal_strlit("gromacs_run_gmx_command");
        }
        if str_eq(s, "ob_sim") {
            Some(Kind::OpenBabelSimilaritySearching(crate::app::chem::kinds::Fingerprint::default()))
        } else if str_eq(s, "ob_ss") {
            Some(Kind::OpenBabelSSMatching)
        } else if str_eq(s, "recgen_build") {
            Some(Kind::ReCGenBuild)
        } else if str_eq(s, "gromacs_run_gmx_command") {
            Some(Kind::GromacsRunGMXCommand)
        } else {
            proof {
                assert forall|k: Kind| s@ != k.spec_name() by {
                    match k {
                        Kind::OpenBabelSimilaritySearching(_) => assert(s@ != "ob_sim"@),
                        Kind::OpenBabelSSMatching => assert(s@ != "ob_ss"@),
                        Kind::ReCGenBuild => assert(s@ != "recgen_build"@),
                        Kind::GromacsRunGMXCommand => assert(s@ != "gromacs_run_gmx_command"@),
                    }
                }
            }
            None
        }
    }
}

impl std::str::FromStr for Kind {
    type Err = crate::kinds::VariantNotFound;

    fn from_str(s: &str) -> Result<Self, Self::Err> {
        match Kind::from_name(s) {
            Some(k) => Ok(k),
            None => Err(crate::kinds::VariantNotFound),
        }
    }
}

/// The canonical encoding of an operator kind: a tag character, then any
/// operator parameters.
pub open spec fn enc_operator(k: Kind) -> Seq<char> {
    match k {
        Kind::OpenBabelSimilaritySearching(fpk) => seq!['S'] + fpc::enc_fingerprint(fpk),
        Kind::OpenBabelSSMatching => seq!['M'],
        Kind::ReCGenBuild => seq!['R'],
        Kind::GromacsRunGMXCommand => seq!['G'],
    }
}

pub open spec fn dec_operator(s: Seq<char>) -> Option<(Kind, Seq<char>)> {
    if s.len() >= 1 {
        let rest = s.subrange(1, s.len() as int);
        if s[0] == 'S' {
            match fpc::dec_fingerprint(rest) {
                Some((fpk, r)) => Some((Kind::OpenBabelSimilaritySearching(fpk), r)),
                None => None,
            }
        } else if s[0] == 'M' {
            Some((Kind::OpenBabelSSMatching, rest))
        } else if s[0] == 'R' {
            Some((Kind::ReCGenBuild, rest))
        } else if s[0] == 'G' {
            Some((Kind::GromacsRunGMXCommand, rest))
        } else {
            None
        }
    } else {
        None
    }
}

/// Decoding inverts encoding for operator kinds.
pub proof fn lemma_dec_enc_operator(k: Kind, t: Seq<char>)
    ensures
        dec_operator(enc_operator(k) + t) == Some((k, t)),
{
    let e = enc_operator(k) + t;
    match k {
        Kind::OpenBabelSimilaritySearching(fpk) => {
            assert(e.subrange(1, e.len() as int) =~= fpc::enc_fingerprint(fpk) + t);
            fpc::lemma_dec_enc_fingerprint(fpk, t);
        },
        _ => {
            assert(e.subrange(1, e.len() as int) =~= t);
        },
    }
}

pub fn encode_operator(out: &mut String, k: &Kind)
    ensures
        final(out)@ == old(out)@ + enc_operator(*k),
{
    proof {
        reveal_strlit("S");
        reveal_strlit("M");
        reveal_strlit("R");
        reveal_strlit("G");
        assert("S"@ =~= seq!['S']);
        assert("M"@ =~= seq!['M']);
        assert("R"@ =~= seq!['R']);
        assert("G"@ =~= seq!['G']);
    }
    match k {
        Kind::OpenBabelSimilaritySearching(fpk) => {
            out.append("S");
            fpc::encode_fingerprint(out, fpk);
        },
        Kind::OpenBabelSSMatching => out.append("M"),
        Kind::ReCGenBuild => out.append("R"),
        Kind::GromacsRunGMXCommand => out.append("G"),
    }
    proof {
        assert(out@ =~= old(out)@ + enc_operator(*k));
    }
}

pub fn decode_operator(s: &str, pos: usize) -> (r: Option<(Kind, usize)>)
    requires
        pos <= s@.len(),
    ensures
        match r {
            Some(vp) => pos <= vp.1 <= s@.len() && dec_operator(
                s@.subrange(pos as int, s@.len() as int),
            ) == Some((vp.0, s@.subrange(vp.1 as int, s@.len() as int))),
            None => dec_operator(s@.subrange(pos as int, s@.len() as int)) is None,
        },
{
    let ghost whole = s@.subrange(pos as int, s@.len() as int);
    let len = s.unicode_len();
    if pos >= len {
        return None;
    }
    let c = s.get_char(pos);
    proof {
        assert(whole[0] == s@[pos as int]);
        assert(whole.subrange(1, whole.len() as int) =~= s@.subrange(pos + 1, s@.len() as int));
    }
    if c == 'S' {
        match fpc::decode_fingerprint(s, pos + 1) {
            Some((fpk, p2)) => Some((Kind::OpenBabelSimilaritySearching(fpk), p2)),
            None => None,
        }
    } else if c == 'M' {
        Some((Kind::OpenBabelSSMatching, pos + 1))
    } else if c == 'R' {
        Some((Kind::ReCGenBuild, pos + 1))
    } else if c == 'G' {
        Some((Kind::GromacsRunGMXCommand, pos + 1))
    } else {
        None
    }
}

impl Serialization for Kind {
    type Repr = Kind;

    open spec fn repr(&self) -> Kind {
        *self
    }

    open spec fn serial(&self) -> Seq<char> {
        enc_operator(*self)
    }

    open spec fn deserial(s: Seq<char>) -> Option<Self> {
        match dec_operator(s) {
            Some((v, r)) => if r.len() == 0 {
                Some(v)
            } else {
                None
            },
            None => None,
        }
    }

    fn ser_to(&self) -> (r: crate::traits::SerializedFormat) {
        let mut out = String::new();
        encode_operator(&mut out, self);
        proof {
            assert(out@ =~= enc_operator(*self));
        }
        out
    }

    fn ser_from(content: &crate::traits::SerializedFormat) -> (r: Self) {
        let len = content.as_str().unicode_len();
        match decode_operator(content.as_str(), 0) {
            Some((v, p)) => {
                proof {
                    assert(content@.subrange(0, content@.len() as int) =~= content@);
                }
                if p == len {
                    proof {
                        assert(content@.subrange(p as int, content@.len() as int).len() == 0);
                    }
                    v
                } else {
                    proof {
                        assert(content@.subrange(p as int, content@.len() as int).len() != 0);
                        assert(false);
                    }
                    unreached()
                }
            },
            None => {
                proof {
                    assert(content@.subrange(0, content@.len() as int) =~= content@);
                    assert(false);
                }
                unreached()
            },
        }
    }

    proof fn lemma_round_trip(&self) {
        lemma_dec_enc_operator(*self, Seq::empty());
        assert(enc_operator(*self) + Seq::empty() =~= enc_operator(*self));
    }
}

} // verus!
