//! The command line: what to scan, whether to fix, and how to report.

use vstd::prelude::*;

verus! {

/// Output format for displaying results.
#[derive(Debug, Clone, Copy, PartialEq, Eq, Structural)]
pub enum OutputFormat {
    /// Group offenses by file (default).
    File,
    /// Group offenses by rule.
    Rule,
    /// One offense per line, suitable for grep/reviewdog/CI.
    Plain,
}

impl Default for OutputFormat {
    /// Offenses are grouped by file unless asked otherwise.
    fn default() -> (r: Self)
        ensures
            r == OutputFormat::File,
    {
        OutputFormat::File
    }
}

/// The parsed command line.
#[derive(Debug, Clone)]
pub struct Cli {
    /// Path to a Ruby file or directory to scan (defaults to current directory).
    pub path: String,
    /// Automatically fix safe offenses in-place.
    pub fix: bool,
    /// Output format: file (default), rule, or plain.
    pub format: OutputFormat,
}

} // verus!
