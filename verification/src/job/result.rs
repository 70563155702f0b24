//! The collected result of a completed job.

use vstd::prelude::*;
use crate::traits::SerializedFormat;

verus! {

/// What a completed job hands back: the serialized outputs of its
/// dividends, or the error that terminated it.
#[derive(Debug, Clone, PartialEq, Eq)]
pub struct JobResult {
    pub outputs: Vec<SerializedFormat>,
    pub error: Option<String>,
}

} // verus!
