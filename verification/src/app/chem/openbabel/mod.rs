//! The OpenBabel-backed operators: similarity search and substructure
//! matching.

pub mod kinds;
pub mod similarity;
pub mod substructure;
