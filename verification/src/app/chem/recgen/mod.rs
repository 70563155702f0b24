//! ReCGen: generating candidate compounds from an input structure.

pub mod build;
