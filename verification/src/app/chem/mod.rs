pub mod gromacs;
pub mod kinds;
pub mod recgen;
pub mod openbabel;
pub mod types;
