//! The wire shapes of the Language Server Protocol that the library produces and
//! reads.

use vstd::prelude::*;

verus! {

/// A zero-based position: a line and a column in UTF-16 code units.
#[derive(Clone, Copy, Debug, PartialEq, Eq, Structural)]
pub struct Position {
    pub line: u32,
    pub character: u32,
}

/// A range of positions, `end` exclusive.
#[derive(Clone, Copy, Debug, PartialEq, Eq, Structural)]
pub struct Range {
    pub start: Position,
    pub end: Position,
}

/// A diagnostic's code: a number or a string.
#[derive(Debug, PartialEq, Eq)]
pub enum DiagnosticCode {
    Integer(i64),
    String(String),
}

impl Clone for DiagnosticCode {
    fn clone(&self) -> (copy: Self)
        ensures
            copy == *self,
    {
        match self {
            DiagnosticCode::Integer(n) => DiagnosticCode::Integer(*n),
            DiagnosticCode::String(s) => DiagnosticCode::String(s.clone()),
        }
    }
}

/// One diagnostic of a file.
#[derive(Debug, PartialEq, Eq)]
pub struct Diagnostic {
    pub range: Range,
    pub severity: Option<u32>,
    pub code: Option<DiagnosticCode>,
    pub source: Option<String>,
    pub message: String,
}

impl Clone for Diagnostic {
    fn clone(&self) -> (copy: Self)
        ensures
            copy == *self,
    {
        Diagnostic {
            range: self.range,
            severity: self.severity,
            code: match &self.code {
                Some(code) => Some(code.clone()),
                None => None,
            },
            source: match &self.source {
                Some(source) => Some(source.clone()),
                None => None,
            },
            message: self.message.clone(),
        }
    }
}

/// The parameters of a `textDocument/publishDiagnostics` notification.
#[derive(Debug, PartialEq, Eq)]
pub struct PublishDiagnosticsParams {
    pub uri: String,
    pub diagnostics: Vec<Diagnostic>,
}

} // verus!
