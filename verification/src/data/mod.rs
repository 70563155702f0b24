//! Data documents and sources.

use vstd::prelude::*;

pub mod types;
mod doc;
mod source;

pub use doc::smiles::DocSMILES;
pub use source::pubchem::EntryPubChem;
pub use source::pubchem::SourcePubChem;

verus! {

/// A document with no entries.
pub trait Empty: Sized {
    fn empty() -> Self;
}

/// A small fixed document for exercising operators.
pub trait Dummy: Sized {
    fn dummy() -> Self;
}

/// A one-line description of a store's contents.
pub trait Info {
    fn info(&self) -> String;
}

} // verus!
