pub mod fingerprint;

pub use fingerprint::Kind;
pub use fingerprint::Kind as Fingerprint;
pub use fingerprint::ParseStringError;
