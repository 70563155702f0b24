//! Names for the chemical values that flow through the operators.

use vstd::prelude::*;

verus! {

pub type SMILES = String;

pub type SMARTS = String;

pub type FingerprintData = Vec<u32>;

pub type IdSmilesPairs = (Vec<crate::data::types::EntryID>, Vec<SMILES>);

} // verus!
