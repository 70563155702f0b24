pub mod dataset;
pub mod cu;

pub use crate::app::kind::ComputationKind;
pub use crate::app::kind::Kind as Operator;
pub use cu::Kind as ComputingUnit;
pub use dataset::Kind as Dataset;
pub use dataset::VariantNotFound;
