//! Dataset kinds: the corpora a computation can run over.

use vstd::prelude::*;
use crate::traits::Serialization;
use crate::utils::str_eq;

verus! {

/// Why a dataset name failed to parse.
#[derive(Debug, Clone, PartialEq, Eq, Structural)]
pub struct VariantNotFound;

#[derive(Debug, Clone, Copy, PartialEq, Eq, Structural, Hash)]
pub enum Kind {
    Empty,
    Dummy,
    TestChembl,
    Chembl30,
    PubChem,
}

impl Kind {
    /// Number of entries the corpus holds.
    pub fn size(&self) -> (r: usize)
        ensures
            r == self.spec_size(),
    {
        match self {
            Kind::Empty => 0,
            Kind::Dummy => 4,
            Kind::TestChembl => 10000,
            Kind::Chembl30 => 2136187,
            Kind::PubChem => 160000000,
        }
    }

    pub open spec fn spec_size(self) -> usize {
        match self {
            Kind::Empty => 0,
            Kind::Dummy => 4,
            Kind::TestChembl => 10000,
            Kind::Chembl30 => 2136187,
            Kind::PubChem => 160000000,
        }
    }

    /// Environment variable naming the corpus location; the built-in
    /// corpora (Empty, Dummy) have none.
    pub fn env_key(&self) -> (r: &str)
        requires
            self is TestChembl || self is Chembl30 || self is PubChem,
        ensures
            r@ == self.spec_env_key(),
    {
        match self {
            Kind::Empty => "",
            Kind::Dummy => "",
            Kind::TestChembl => "DATASET_CHEMBL_PATH",
            Kind::Chembl30 => "DATASET_CHEMBL_PATH",
            Kind::PubChem => "",
        }
    }

    pub open spec fn spec_env_key(self) -> Seq<char> {
        match self {
            Kind::TestChembl => "DATASET_CHEMBL_PATH"@,
            Kind::Chembl30 => "DATASET_CHEMBL_PATH"@,
            _ => ""@,
        }
    }

    /// Where the corpus file can be downloaded from.
    pub fn source_url(&self) -> (r: &str)
        requires
            self is TestChembl || self is Chembl30 || self is PubChem,
        ensures
            r@ == self.spec_source_url(),
    {
        match self {
            Kind::Empty => "",
            Kind::Dummy => "",
            Kind::TestChembl => "https://github.com/chiral-data/chiral-db-example-data/blob/main/ChEMBL/chembl_30_chemreps_10k.txt?raw=true",
            Kind::Chembl30 => "https://ftp.ebi.ac.uk/pub/databases/chembl/ChEMBLdb/releases/chembl_30/chembl_30_chemreps.txt.gz",
            Kind::PubChem => "https://ftp.ncbi.nlm.nih.gov/pubchem/Compound/Extras/CID-SMILES.gz",
        }
    }

    pub open spec fn spec_source_url(self) -> Seq<char> {
        match self {
            Kind::TestChembl => "https://github.com/chiral-data/chiral-db-example-data/blob/main/ChEMBL/chembl_30_chemreps_10k.txt?raw=true"@,
            Kind::Chembl30 => "https://ftp.ebi.ac.uk/pub/databases/chembl/ChEMBLdb/releases/chembl_30/chembl_30_chemreps.txt.gz"@,
            Kind::PubChem => "https://ftp.ncbi.nlm.nih.gov/pubchem/Compound/Extras/CID-SMILES.gz"@,
            _ => ""@,
        }
    }

    /// File name the corpus is stored under locally.
    pub fn filename(&self) -> (r: &str)
        requires
            self is TestChembl || self is Chembl30 || self is PubChem,
        ensures
            r@ == self.spec_filename(),
    {
        match self {
            Kind::Empty => "",
            Kind::Dummy => "",
            Kind::TestChembl => "chembl_30_chemreps_10k.txt",
            Kind::Chembl30 => "chembl_30_chemreps.txt",
            Kind::PubChem => "CID-SMILES.gz",
        }
    }

    pub open spec fn spec_filename(self) -> Seq<char> {
        match self {
            Kind::TestChembl => "chembl_30_chemreps_10k.txt"@,
            Kind::Chembl30 => "chembl_30_chemreps.txt"@,
            Kind::PubChem => "CID-SMILES.gz"@,
            _ => ""@,
        }
    }

    pub open spec fn spec_name(self) -> Seq<char> {
        match self {
            Kind::Empty => "empty"@,
            Kind::Dummy => "dummy"@,
            Kind::TestChembl => "test_chembl"@,
            Kind::Chembl30 => "chembl30"@,
            Kind::PubChem => "pub_chem"@,
        }
    }

    /// The canonical textual name of the kind.
    pub fn to_string(&self) -> (r: String)
        ensures
            r@ == self.spec_name(),
    {
        match self {
            Kind::Empty => String::from_str("empty"),
            Kind::Dummy => String::from_str("dummy"),
            Kind::TestChembl => String::from_str("test_chembl"),
            Kind::Chembl30 => String::from_str("chembl30"),
            Kind::PubChem => String::from_str("pub_chem"),
        }
    }

    /// Parse the canonical textual name; `None` exactly when `s` names
    /// no dataset kind.
    pub fn from_name(s: &str) -> (r: Option<Kind>)
        ensures
            match r {
                Some(k) => s@ == k.spec_name(),
                None => forall|k: Kind| s@ != k.spec_name(),
            },
    {
        proof {
            reveal_strlit("empty");
            reveal_strlit("dummy");
            reveal_strlit("test_chembl");
            reveal_strlit("chembl30");
            reveal_strlit("pub_chem");
        }
        if str_eq(s, "empty") {
            Some(Kind::Empty)
        } else if str_eq(s, "dummy") {
            Some(Kind::Dummy)
        } else if str_eq(s, "test_chembl") {
            Some(Kind::TestChembl)
        } else if str_eq(s, "chembl30") {
            Some(Kind::Chembl30)
        } else if str_eq(s, "pub_chem") {
            Some(Kind::PubChem)
        } else {
            proof {
                assert forall|k: Kind| s@ != k.spec_name() by {
                    match k {
                        Kind::Empty => assert(s@ != "empty"@),
                        Kind::Dummy => assert(s@ != "dummy"@),
                        Kind::TestChembl => assert(s@ != "test_chembl"@),
                        Kind::Chembl30 => assert(s@ != "chembl30"@),
                        Kind::PubChem => assert(s@ != "pub_chem"@),
                    }
                }
            }
            None
        }
    }
}

impl std::str::FromStr for Kind {
    type Err = VariantNotFound;

    fn from_str(s: &str) -> Result<Self, Self::Err> {
        match Kind::from_name(s) {
            Some(k) => Ok(k),
            None => Err(VariantNotFound),
        }
    }
}

/// The canonical encoding of a dataset kind: one tag character.
pub open spec fn enc_dataset(k: Kind) -> Seq<char> {
    match k {
        Kind::Empty => seq!['E'],
        Kind::Dummy => seq!['D'],
        Kind::TestChembl => seq!['T'],
        Kind::Chembl30 => seq!['C'],
        Kind::PubChem => seq!['P'],
    }
}

pub open spec fn dec_dataset(s: Seq<char>) -> Option<(Kind, Seq<char>)> {
    if s.len() >= 1 {
        let rest = s.subrange(1, s.len() as int);
        if s[0] == 'E' {
            Some((Kind::Empty, rest))
        } else if s[0] == 'D' {
            Some((Kind::Dummy, rest))
        } else if s[0] == 'T' {
            Some((Kind::TestChembl, rest))
        } else if s[0] == 'C' {
            Some((Kind::Chembl30, rest))
        } else if s[0] == 'P' {
            Some((Kind::PubChem, rest))
        } else {
            None
        }
    } else {
        None
    }
}

/// Decoding inverts encoding for dataset kinds.
pub proof fn lemma_dec_enc_dataset(k: Kind, t: Seq<char>)
    ensures
        dec_dataset(enc_dataset(k) + t) == Some((k, t)),
{
    assert((enc_dataset(k) + t).subrange(1, (enc_dataset(k) + t).len() as int) =~= t);
}

pub fn encode_dataset(out: &mut String, k: &Kind)
    ensures
        final(out)@ == old(out)@ + enc_dataset(*k),
{
    proof {
        reveal_strlit("E");
        reveal_strlit("D");
        reveal_strlit("T");
        reveal_strlit("C");
        reveal_strlit("P");
        assert("E"@ =~= seq!['E']);
        assert("D"@ =~= seq!['D']);
        assert("T"@ =~= seq!['T']);
        assert("C"@ =~= seq!['C']);
        assert("P"@ =~= seq!['P']);
    }
    match k {
        Kind::Empty => out.append("E"),
        Kind::Dummy => out.append("D"),
        Kind::TestChembl => out.append("T"),
        Kind::Chembl30 => out.append("C"),
        Kind::PubChem => out.append("P"),
    }
}

pub fn decode_dataset(s: &str, pos: usize) -> (r: Option<(Kind, usize)>)
    requires
        pos <= s@.len(),
    ensures
        match r {
            Some(vp) => pos <= vp.1 <= s@.len() && dec_dataset(
                s@.subrange(pos as int, s@.len() as int),
            ) == Some((vp.0, s@.subrange(vp.1 as int, s@.len() as int))),
            None => dec_dataset(s@.subrange(pos as int, s@.len() as int)) is None,
        },
{
    let ghost whole = s@.subrange(pos as int, s@.len() as int);
    let len = s.unicode_len();
    if pos >= len {
        return None;
    }
    let c = s.get_char(pos);
    proof {
        assert(whole[0] == s@[pos as int]);
        assert(whole.subrange(1, whole.len() as int) =~= s@.subrange(pos + 1, s@.len() as int));
    }
    if c == 'E' {
        Some((Kind::Empty, pos + 1))
    } else if c == 'D' {
        Some((Kind::Dummy, pos + 1))
    } else if c == 'T' {
        Some((Kind::TestChembl, pos + 1))
    } else if c == 'C' {
        Some((Kind::Chembl30, pos + 1))
    } else if c == 'P' {
        Some((Kind::PubChem, pos + 1))
    } else {
        None
    }
}

impl Serialization for Kind {
    type Repr = Kind;

    open spec fn repr(&self) -> Kind {
        *self
    }

    open spec fn serial(&self) -> Seq<char> {
        enc_dataset(*self)
    }

    open spec fn deserial(s: Seq<char>) -> Option<Self> {
        match dec_dataset(s) {
            Some((v, r)) => if r.len() == 0 {
                Some(v)
            } else {
                None
            },
            None => None,
        }
    }

    fn ser_to(&self) -> (r: crate::traits::SerializedFormat) {
        let mut out = String::new();
        encode_dataset(&mut out, self);
        proof {
            assert(out@ =~= enc_dataset(*self));
        }
        out
    }

    fn ser_from(content: &crate::traits::SerializedFormat) -> (r: Self) {
        let len = content.as_str().unicode_len();
        match decode_dataset(content.as_str(), 0) {
            Some((v, p)) => {
                proof {
                    assert(content@.subrange(0, content@.len() as int) =~= content@);
                }
                if p == len {
                    proof {
                        assert(content@.subrange(p as int, content@.len() as int).len() == 0);
                    }
                    v
                } else {
                    proof {
                        assert(content@.subrange(p as int, content@.len() as int).len() != 0);
                        assert(false);
                    }
                    unreached()
                }
            },
            None => {
                proof {
                    assert(content@.subrange(0, content@.len() as int) =~= content@);
                    assert(false);
                }
                unreached()
            },
        }
    }

    proof fn lemma_round_trip(&self) {
        lemma_dec_enc_dataset(*self, Seq::empty());
        assert(enc_dataset(*self) + Seq::empty() =~= enc_dataset(*self));
    }
}

} // verus!
