//! The job lifecycle: requirement, status, progress and result.

use vstd::prelude::*;
use crate::traits::Serialization;

mod job;
mod requirement;
mod result;
mod status;

pub use job::Job;
pub use job::Progress;
pub use job::Status;
pub use requirement::Requirement;
pub use result::JobResult;
pub use status::Status as BlockStatus;
pub use status::StatusLabel;

verus! {

/// A requirement in its canonical encoding, built from the textual names
/// of the operator and dataset kinds.  Callers pass names the registries
/// know; an unknown name is a programmer error.
pub fn create_requirement(ji_str: String, opk_str: String, dsk_str: String) -> (r: String)
    requires
        exists|k: crate::kinds::Operator| opk_str@ == k.spec_name(),
        exists|k: crate::kinds::Dataset| dsk_str@ == k.spec_name(),
    ensures
        exists|req: Requirement|
            (#[trigger] req.ji)@ == ji_str@ && req.opk.spec_name() == opk_str@
                && req.dsk.spec_name() == dsk_str@ && r@ == req.serial(),
{
    let opk = match crate::kinds::Operator::from_name(opk_str.as_str()) {
        Some(k) => k,
        None => {
            proof {
                assert(false);
            }
            unreached()
        },
    };
    let dsk = match crate::kinds::Dataset::from_name(dsk_str.as_str()) {
        Some(k) => k,
        None => {
            proof {
                assert(false);
            }
            unreached()
        },
    };
    let req = Requirement::new(ji_str, opk, dsk);
    let out = req.ser_to();
    proof {
        assert((req.ji)@ == req.ji@ && req.opk.spec_name() == opk_str@ && req.dsk.spec_name()
            == dsk_str@ && out@ == req.serial());
    }
    out
}

/// Opaque job identifier.
pub type ID = String;

/// Number of independent work units a job is split into.
pub type DividendSize = usize;

/// Identifies one work unit among the total: (index, total).
pub type DividendIndex = (DividendSize, DividendSize);

/// Credit points a job accumulates, in thousandths of a credit.
pub type CreditPoints = u64;

} // verus!
