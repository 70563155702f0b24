pub mod traits;
pub mod logging;
pub mod kinds;
pub mod utils;
pub mod job;
pub mod command;
pub mod app;
pub mod apps;
pub mod data;
pub mod serial;
