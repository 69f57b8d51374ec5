//! Diagnostics in the shape that editors speak.

use vstd::prelude::*;

verus! {

/// How serious a diagnostic is.
#[derive(Clone, Copy, Debug, PartialEq, Eq, Structural)]
pub enum Severity {
    Error,
    Warning,
    Information,
    Hint,
}

/// A point in a text file.
#[derive(Clone, Copy, Debug, PartialEq, Eq, Structural)]
pub struct Position {
    pub line: u64,
    pub character: u64,
}

/// A region of a text file.
#[derive(Clone, Copy, Debug, PartialEq, Eq, Structural)]
pub struct Range {
    pub start: Position,
    pub end: Position,
}

/// One finding.
#[derive(Debug)]
pub struct Diagnostic {
    pub range: Range,
    pub severity: Severity,
    pub code: String,
    pub message: String,
}

/// The findings of one file.
#[derive(Debug)]
pub struct LspJson {
    pub diagnostics: Vec<Diagnostic>,
}

impl Default for LspJson {
    fn default() -> (r: Self)
        ensures
            r.diagnostics@.len() == 0,
    {
        LspJson { diagnostics: Vec::new() }
    }
}

} // verus!
