pub mod pubchem;
