//! Entry identifiers used across the data sources.

use vstd::prelude::*;

verus! {

pub type EntryID = String;

} // verus!
