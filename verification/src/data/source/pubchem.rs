//! The PubChem dataset source: SMILES strings, one per line.

use vstd::prelude::*;

verus! {

#[derive(Debug, Clone, PartialEq)]
pub struct EntryPubChem {
    pub smiles: crate::app::chem::types::SMILES,
}

impl EntryPubChem {
    pub fn from(l: &str) -> (r: Self)
        ensures
            r.smiles@ == l@,
    {
        EntryPubChem { smiles: l.to_owned() }
    }
}

#[derive(Debug, Clone, PartialEq)]
pub struct SourcePubChem {
    pub path: String,
    pub data: Vec<EntryPubChem>,
}

impl SourcePubChem {
    pub fn new() -> (r: Self)
        ensures
            r.path@.len() == 0,
            r.data@.len() == 0,
    {
        SourcePubChem { path: String::new(), data: Vec::new() }
    }

    pub fn set_path(&mut self, path_str: &str)
        ensures
            final(self).path@ == path_str@,
            final(self).data == old(self).data,
    {
        self.path = path_str.to_owned();
    }

    /// Replace the held data with one entry per line of text.
    pub fn convert_lines(&mut self, lines: Vec<String>)
        ensures
            final(self).path == old(self).path,
            final(self).data@.len() == lines@.len(),
            forall|i: int| 0 <= i < lines@.len() ==> (#[trigger] final(self).data@[i]).smiles@
                == lines@[i]@,
    {
        self.data = Vec::new();
        let n = lines.len();
        let mut i: usize = 0;
        while i < n
            invariant
                i <= n,
                n == lines@.len(),
                self.data@.len() == i,
                self.path == old(self).path,
                forall|j: int| 0 <= j < i ==> (#[trigger] self.data@[j]).smiles@ == lines@[j]@,
            decreases n - i,
        {
            self.data.push(EntryPubChem::from(lines[i].as_str()));
            i += 1;
        }
    }

    pub fn len(&self) -> (r: usize)
        ensures
            r == self.data@.len(),
    {
        self.data.len()
    }
}

} // verus!
