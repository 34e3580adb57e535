//! The parts of the Build Server Protocol that the library reads.

use vstd::prelude::*;

verus! {

/// A zero-based position, as a build server sends it.
#[derive(Clone, Copy, Debug, PartialEq, Eq, Structural)]
pub struct Position {
    pub line: i32,
    pub character: i32,
}

/// A range of positions.
#[derive(Clone, Copy, Debug, PartialEq, Eq, Structural)]
pub struct Range {
    pub start: Position,
    pub end: Position,
}

/// The code of a diagnostic.
#[derive(Debug, PartialEq, Eq)]
pub enum DiagnosticCode {
    Integer(i64),
    String(String),
}

/// A diagnostic of a build target.
#[derive(Debug, PartialEq, Eq)]
pub struct Diagnostic {
    pub range: Option<Range>,
    pub severity: Option<i32>,
    pub code: Option<DiagnosticCode>,
    pub source: Option<String>,
    pub message: String,
}

/// A file.
#[derive(Debug, PartialEq, Eq)]
pub struct TextDocumentIdentifier {
    pub uri: String,
}

/// A build target.
#[derive(Debug, PartialEq, Eq)]
pub struct BuildTargetIdentifier {
    pub uri: String,
}

/// The parameters of `build/publishDiagnostics`.
#[derive(Debug, PartialEq, Eq)]
pub struct PublishDiagnosticsParams {
    pub text_document: TextDocumentIdentifier,
    pub build_target: Option<BuildTargetIdentifier>,
    pub diagnostics: Vec<Diagnostic>,
    pub reset: bool,
    pub origin_id: Option<String>,
}

} // verus!
