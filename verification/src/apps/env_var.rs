//! The environment variables this system reads.

use vstd::prelude::*;

verus! {

#[derive(Debug, Clone, Copy, PartialEq, Eq, Structural)]
pub enum Variable {
    ChiralDataDir,
    GromacsWorkDir,
}

impl Variable {
    pub open spec fn spec_as_str(self) -> Seq<char> {
        match self {
            Variable::ChiralDataDir => "CHIRAL_DATA_DIR"@,
            Variable::GromacsWorkDir => "GROMACS_WORK_DIR"@,
        }
    }

    /// The variable's name in the environment.
    pub fn as_str(&self) -> (r: &str)
        ensures
            r@ == self.spec_as_str(),
    {
        match self {
            Variable::ChiralDataDir => "CHIRAL_DATA_DIR",
            Variable::GromacsWorkDir => "GROMACS_WORK_DIR",
        }
    }
}

} // verus!
