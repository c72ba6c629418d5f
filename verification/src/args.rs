//! Command-line argument values, as plain data.
//!
//! Parsing the process's arguments happens outside the library; these
//! types carry the parsed values into it.
use vstd::prelude::*;

verus! {

/// Whether the output is colorized.
#[derive(Clone, Copy, Debug, PartialEq, Eq, Structural)]
pub enum ColorOutputMode {
    /// Always produce colorized output.
    Always,
    /// Always produce plain text.
    Never,
    /// Decide from the terminal's capabilities and environment.
    Auto,
}

/// The subcommand to run, with the files it applies to.  An empty file
/// list selects standard input.
#[derive(Debug)]
pub enum Commands {
    /// Format files according to CJK text formatting rules.
    Format { filenames: Vec<String> },
    /// Check whether formatting is correct without modifying the files.
    Check { filenames: Vec<String> },
}

/// The command-line arguments of an invocation.
#[derive(Debug)]
pub struct CliArgs {
    /// Whether to colorize the output.
    pub color: ColorOutputMode,
    /// Maximum line width to allow, when given on the command line.
    pub max_width: Option<u32>,
    /// The subcommand to run.
    pub command: Commands,
}

impl CliArgs {
    /// The files the selected subcommand applies to.
    pub fn filenames(&self) -> (r: &Vec<String>)
        ensures
            (match self.command {
                Commands::Format { filenames } => r@ == filenames@,
                Commands::Check { filenames } => r@ == filenames@,
            }),
    {
        match &self.command {
            Commands::Format { filenames } => filenames,
            Commands::Check { filenames } => filenames,
        }
    }
}

/// The command-line arguments of the single-command form: one flag
/// selects checking instead of formatting.
#[derive(Debug)]
pub struct Cli {
    /// Check whether formatting is correct without modifying the files.
    pub check: bool,
    /// Maximum line width to allow, when given on the command line.
    pub max_width: Option<u32>,
    /// The files to process; empty selects standard input.
    pub filenames: Vec<String>,
}

impl Cli {
    /// The files to process.
    pub fn filenames(&self) -> (r: &Vec<String>)
        ensures
            r@ == self.filenames@,
    {
        &self.filenames
    }
}

} // verus!
