//! The closed set of in-memory computing units, dispatched exhaustively
//! over the operator kind.

use vstd::prelude::*;
use crate::app::chem::openbabel::{similarity, substructure};

verus! {

/// One computing unit of whichever in-memory kind the operator asked
/// for.  The process-invoking operator kinds have no in-memory unit.
#[derive(Debug, Clone, PartialEq)]
pub enum CuHolder {
    Similarity(similarity::ComputingUnit),
    Substructure(substructure::ComputingUnit),
}

/// Whether `create_cu` can build a unit for this operator kind within
/// the verified envelope.
pub open spec fn spec_can_create(opk: crate::kinds::Operator) -> bool {
    match opk {
        crate::kinds::Operator::OpenBabelSimilaritySearching(fpk) => fpk.spec_width_ok()
            && fpk.spec_pattern_file_free(),
        crate::kinds::Operator::OpenBabelSSMatching => true,
        crate::kinds::Operator::ReCGenBuild => false,
        crate::kinds::Operator::GromacsRunGMXCommand => false,
    }
}

/// The computing unit for this operator kind.  Construction demands a
/// kind with an in-memory unit; asking for another is a programmer
/// error, which construction does not recover from.
pub fn create_cu(opk: &crate::kinds::Operator) -> (r: CuHolder)
    requires
        spec_can_create(*opk),
    ensures
        match *opk {
            crate::kinds::Operator::OpenBabelSimilaritySearching(fpk) => r matches
                CuHolder::Similarity(cu) && cu.wf() && cu.op.fpk == fpk
                && cu.output.results@.len() == 0,
            crate::kinds::Operator::OpenBabelSSMatching => r matches CuHolder::Substructure(cu)
                && cu.data.wf() && cu.output.results@.len() == 0,
            _ => false,
        },
{
    match opk {
        crate::kinds::Operator::OpenBabelSimilaritySearching(fpk) => CuHolder::Similarity(
            similarity::ComputingUnit::from(*fpk),
        ),
        crate::kinds::Operator::OpenBabelSSMatching => CuHolder::Substructure(
            substructure::ComputingUnit::new(),
        ),
        crate::kinds::Operator::ReCGenBuild => {
            proof {
                assert(false);
            }
            unreached()
        },
        crate::kinds::Operator::GromacsRunGMXCommand => {
            proof {
                assert(false);
            }
            unreached()
        },
    }
}

impl CuHolder {
    /// The unit's state is within its kind's verified envelope.
    pub open spec fn wf(self) -> bool {
        match self {
            CuHolder::Similarity(cu) => cu.wf(),
            CuHolder::Substructure(cu) => cu.data.wf(),
        }
    }

    /// Whether this serialized input decodes for the unit's kind.
    pub open spec fn can_take_input(self, s: Seq<char>) -> bool {
        match self {
            CuHolder::Similarity(_) => <similarity::Input as crate::traits::Serialization>::deserial(
                s,
            ) is Some,
            CuHolder::Substructure(_) => <substructure::Input as crate::traits::Serialization>::deserial(
                s,
            ) is Some,
        }
    }

    /// Take the job's serialized input as the unit's input.
    pub fn set_input(&mut self, input_ser: &crate::traits::SerializedFormat)
        requires
            old(self).can_take_input(input_ser@),
        ensures
            final(self).wf() == old(self).wf(),
            (*final(self)) is Similarity == (*old(self)) is Similarity,
    {
        match self {
            CuHolder::Similarity(cu) => cu.set_input(input_ser),
            CuHolder::Substructure(cu) => cu.set_input(input_ser),
        }
    }

    /// Prepare the unit's data from a whole in-memory document.
    pub fn set_data(&mut self, dsk: &crate::kinds::Dataset, doc: &crate::data::DocSMILES)
        requires
            doc.wf(),
            old(self).wf(),
        ensures
            final(self).wf(),
            (*final(self)) is Similarity == (*old(self)) is Similarity,
    {
        match self {
            CuHolder::Similarity(cu) => cu.set_data(dsk, doc),
            CuHolder::Substructure(cu) => cu.set_data(dsk, doc),
        }
    }

    /// Run the unit's computation on its prepared data, appending to its
    /// accumulated output.
    pub fn compute(&mut self)
        requires
            old(self).wf(),
        ensures
            final(self).wf(),
            (*final(self)) is Similarity == (*old(self)) is Similarity,
            match (*old(self), *final(self)) {
                (CuHolder::Similarity(pre), CuHolder::Similarity(post)) => post.output.results@
                    == pre.output.results@ + similarity::spec_compute(
                    pre.data.fps@,
                    pre.data.ids@,
                    similarity::clip_words(
                        similarity::fingerprint_bits(pre.op.fpk.spec_name(), pre.input.smiles@),
                    ),
                    pre.input.threshold,
                    pre.data.fps@.len() as int,
                ),
                (CuHolder::Substructure(pre), CuHolder::Substructure(post)) => post.output.results
                    .deep_view() == pre.output.results.deep_view() + substructure::spec_compute(
                    pre.data.smiles@,
                    pre.data.ids@,
                    pre.input.smarts@,
                    pre.data.smiles@.len() as int,
                ),
                _ => false,
            },
    {
        match self {
            CuHolder::Similarity(cu) => cu.compute(),
            CuHolder::Substructure(cu) => cu.compute(),
        }
    }

    /// How many results the unit has accumulated.
    pub fn get_output_len(&self) -> (r: usize)
        ensures
            r == (match *self {
                CuHolder::Similarity(cu) => cu.output.results@.len(),
                CuHolder::Substructure(cu) => cu.output.results@.len(),
            }),
    {
        match self {
            CuHolder::Similarity(cu) => cu.get_output_len(),
            CuHolder::Substructure(cu) => cu.get_output_len(),
        }
    }
}

} // verus!
