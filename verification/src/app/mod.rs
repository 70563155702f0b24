pub mod chem;
pub mod cu;
pub mod kind;
