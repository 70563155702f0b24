//! Coloured terminal logging.

use std::io::Write;
use vstd::prelude::*;

verus! {

/// Relies on std::io::Stdout via the writeln macro: prints one line,
/// wrapped in the given terminal colour codes.  Output errors are ignored,
/// as a logger should not fail its caller.
#[verifier::external_body]
fn print_with(prefix: &str, msg: &str) {
    let _ = writeln!(std::io::stdout(), "{}{}\x1b[0m", prefix, msg);
}

pub fn info(msg: &str) {
    print_with("\x1b[92m", msg);
}

pub fn warn(msg: &str) {
    print_with("\x1b[93m", msg);
}

pub fn error(msg: &str) {
    print_with("\x1b[91m", msg);
}

pub fn info_release(msg: &str) {
    print_with("\x1b[92m", msg);
}

pub fn warn_release(msg: &str) {
    print_with("\x1b[93m", msg);
}

pub fn error_release(msg: &str) {
    print_with("\x1b[91m", msg);
}

pub fn job_info(msg: &str, background: bool) {
    if !background {
        info(msg);
    }
}

pub fn job_warn(msg: &str, background: bool) {
    if !background {
        warn(msg);
    }
}

pub fn job_error(msg: &str, background: bool) {
    if !background {
        error(msg);
    }
}

} // verus!
