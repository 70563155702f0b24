//! Application-wide configuration names.

pub mod env_var;
