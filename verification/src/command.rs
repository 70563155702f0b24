//! Common pieces of the command-line layer.

use vstd::prelude::*;

verus! {

/// The help layout shared by all sub-commands.
pub const HELP_TEMPLATE: &'static str = "{about-with-newline}\n{usage-heading}\n    {usage}\n\n{all-args}{after-help}";

/// Why a command line could not be turned into a job.
#[derive(Debug, Clone, PartialEq, Eq)]
pub enum CommandLineError {
    ShlexSplitError,
    SubCommandNotFound(String, String),
    SubCommandRequired(String),
    ArgumentNotFound(String),
}

impl CommandLineError {
    pub open spec fn spec_message(self) -> Seq<char> {
        match self {
            CommandLineError::ShlexSplitError => "shlex split argument error: invalid quoting"@,
            CommandLineError::SubCommandNotFound(cmd, sub) => "subcommand '"@ + cmd@ + " "@ + sub@
                + "' not found, run '"@ + cmd@ + " help' for details."@,
            CommandLineError::SubCommandRequired(cmd) => "subcommand required after'"@ + cmd@
                + "', run '"@ + cmd@ + " help' for details."@,
            CommandLineError::ArgumentNotFound(arg) => "argument '"@ + arg@ + "' not found."@,
        }
    }

    /// The human-readable description of the error.
    pub fn message(&self) -> (r: String)
        ensures
            r@ == self.spec_message(),
    {
        let mut out = String::new();
        match self {
            CommandLineError::ShlexSplitError => {
                out.append("shlex split argument error: invalid quoting");
            },
            CommandLineError::SubCommandNotFound(cmd, sub) => {
                out.append("subcommand '");
                out.append(cmd.as_str());
                out.append(" ");
                out.append(sub.as_str());
                out.append("' not found, run '");
                out.append(cmd.as_str());
                out.append(" help' for details.");
            },
            CommandLineError::SubCommandRequired(cmd) => {
                out.append("subcommand required after'");
                out.append(cmd.as_str());
                out.append("', run '");
                out.append(cmd.as_str());
                out.append(" help' for details.");
            },
            CommandLineError::ArgumentNotFound(arg) => {
                out.append("argument '");
                out.append(arg.as_str());
                out.append("' not found.");
            },
        }
        proof {
            assert(out@ =~= self.spec_message());
        }
        out
    }
}

} // verus!
