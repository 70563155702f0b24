//! The common traits: canonical serialization and the operator interface.

use vstd::prelude::*;

verus! {

pub type SerializedFormat = String;

/// A type with a canonical text encoding.  `serial` is the encoding and
/// `deserial` the decoding, stated over `Repr`: the value's observable
/// content, with owned text taken as its character sequence.  Every
/// implementation proves the round trip, so `decode(encode(x)) == x`
/// holds for each of these types.
pub trait Serialization: Sized {
    /// The observable content a decode must reproduce.
    type Repr;

    spec fn repr(&self) -> Self::Repr;

    spec fn serial(&self) -> Seq<char>;

    spec fn deserial(s: Seq<char>) -> Option<Self::Repr>;

    fn ser_to(&self) -> (r: SerializedFormat)
        ensures
            r@ == self.serial(),
    ;

    fn ser_from(content: &SerializedFormat) -> (r: Self)
        requires
            Self::deserial(content@) is Some,
        ensures
            Self::deserial(content@) == Some(r.repr()),
    ;

    /// Decoding inverts encoding.
    proof fn lemma_round_trip(&self)
        ensures
            Self::deserial(self.serial()) == Some(self.repr()),
    ;
}

/// Files an input wants staged before its computation runs, and where.
pub trait TraitFileRequirements {
    fn dir(&self) -> String;

    fn dir_full(&self) -> String;

    fn files_in(&self) -> Vec<String>;

    fn files_out(&self) -> Vec<String>;
}

/// The per-dividend slice of a corpus that one computation reads.
pub trait TraitData: Sized {
    fn blank() -> Self;

    fn len(&self) -> usize;
}

/// The store that hands out dataset slices, one call per prepared dividend.
pub trait TraitDataStore {
    fn get_id_smiles_pairs(
        &self,
        dsk: &crate::kinds::Dataset,
        div_index: &crate::job::DividendIndex,
    ) -> Option<crate::app::chem::types::IdSmilesPairs>;
}

/// The uniform operator interface: one implementation per computation
/// kind, dispatched over `crate::kinds::Operator`.
pub trait TraitOperator {
    type InputType;

    type DataType;

    type OutputType;

    type ReportType;

    fn get_kind(&self) -> crate::kinds::Operator;

    fn compute(
        &self,
        input: &Self::InputType,
        data: &Self::DataType,
        div_index: &crate::job::DividendIndex,
    ) -> Self::OutputType;

    fn report(
        &self,
        job_id: crate::job::ID,
        input: Self::InputType,
        data: &Self::DataType,
        output: Self::OutputType,
    ) -> Self::ReportType;
}

/// An input value for one operator kind.
pub trait TraitInput: Serialization {
    /// Whether this is the kind's default input.
    spec fn is_default(&self) -> bool;

    fn default() -> (r: Self)
        ensures
            r.is_default(),
    ;
}

/// An output value for one operator kind.
pub trait TraitOutput: Serialization {
    /// Whether this output holds nothing yet.
    spec fn is_blank(&self) -> bool;

    fn blank() -> (r: Self)
        ensures
            r.is_blank(),
    ;

    fn clear(&mut self);

    fn append(&mut self, other: &mut Self);

    fn len(&self) -> usize;
}

} // verus!
