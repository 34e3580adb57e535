//! The state of the workspace and what each method answers before it is ready.

use vstd::prelude::*;
use vstd::string::*;

use crate::text;

verus! {

/// The state of the workspace. A ready one owns the services `S`.
#[derive(Debug, PartialEq, Eq)]
pub enum WorkspaceState<S> {
    NotReady { detail: String },
    Failed { detail: String },
    Ready(S),
}

impl<S> WorkspaceState<S> {
    /// The state in words.
    pub open spec fn status(self) -> Seq<char> {
        match self {
            WorkspaceState::NotReady { detail } => "not ready: "@ + detail@,
            WorkspaceState::Failed { detail } => "bootstrap failed: "@ + detail@,
            WorkspaceState::Ready(_) => "ready"@,
        }
    }

    /// The state in words.
    pub fn status_line(&self) -> (line: String)
        ensures
            line@ == self.status(),
    {
        match self {
            WorkspaceState::NotReady { detail } => {
                let mut line = "not ready: ".to_owned();
                text::push_text(&mut line, detail.as_str());
                line
            },
            WorkspaceState::Failed { detail } => {
                let mut line = "bootstrap failed: ".to_owned();
                text::push_text(&mut line, detail.as_str());
                line
            },
            WorkspaceState::Ready(_) => "ready".to_owned(),
        }
    }

    /// Whether the workspace is ready.
    pub fn is_ready(&self) -> (ready: bool)
        ensures
            ready == (*self is Ready),
    {
        match self {
            WorkspaceState::Ready(_) => true,
            _ => false,
        }
    }

    /// The services of a ready workspace.
    pub fn ready(&self) -> (services: Option<&S>)
        ensures
            match services {
                Some(services) => *self == WorkspaceState::Ready(*services),
                None => !(*self is Ready),
            },
    {
        match self {
            WorkspaceState::Ready(services) => Some(services),
            _ => None,
        }
    }
}

/// The error of a request that needs a ready workspace.
#[derive(Debug, PartialEq, Eq)]
pub struct NotReadyError {
    pub message: String,
}

/// Fails with the state of the workspace unless it is ready.
pub fn require_ready<S>(state: &WorkspaceState<S>) -> (result: Result<(), NotReadyError>)
    ensures
        match result {
            Ok(_) => *state is Ready,
            Err(error) => !(*state is Ready) && error.message@ == "workspace is "@ + state.status(),
        },
{
    if state.is_ready() {
        Ok(())
    } else {
        let mut message = "workspace is ".to_owned();
        text::push_text(&mut message, state.status_line().as_str());
        Err(NotReadyError { message })
    }
}

/// A method whose answer depends on the state of the workspace.
#[derive(Clone, Copy, Debug, PartialEq, Eq, Structural)]
pub enum Method {
    References,
    Rename,
    DocumentHighlight,
    WorkspaceSymbol,
    Completion,
    Definition,
    TypeDefinition,
    Hover,
    SignatureHelp,
    PrepareRename,
    InlayHint,
    CodeAction,
    SelectionRange,
    FoldingRange,
    SemanticTokensFull,
    SemanticTokensRange,
}

/// What a method answers before the workspace is ready.
#[derive(Clone, Copy, Debug, PartialEq, Eq, Structural)]
pub enum PreReadyOutcome {
    /// An error with the state of the workspace.
    NotReadyError,
    /// An empty result.
    Empty,
    /// A null result.
    Null,
}

/// What a method answers before the workspace is ready. References and a rename
/// fail, since an empty answer would be wrong; methods that answer a list answer
/// an empty one, the others null.
pub open spec fn outcome_before_ready(method: Method) -> PreReadyOutcome {
    match method {
        Method::References | Method::Rename => PreReadyOutcome::NotReadyError,
        Method::DocumentHighlight
        | Method::WorkspaceSymbol
        | Method::Completion
        | Method::Definition
        | Method::TypeDefinition
        | Method::InlayHint
        | Method::CodeAction
        | Method::FoldingRange => PreReadyOutcome::Empty,
        Method::Hover
        | Method::SignatureHelp
        | Method::PrepareRename
        | Method::SelectionRange
        | Method::SemanticTokensFull
        | Method::SemanticTokensRange => PreReadyOutcome::Null,
    }
}

/// What a method answers before the workspace is ready.
pub fn pre_ready_outcome(method: Method) -> (outcome: PreReadyOutcome)
    ensures
        outcome == outcome_before_ready(method),
{
    match method {
        Method::References | Method::Rename => PreReadyOutcome::NotReadyError,
        Method::DocumentHighlight
        | Method::WorkspaceSymbol
        | Method::Completion
        | Method::Definition
        | Method::TypeDefinition
        | Method::InlayHint
        | Method::CodeAction
        | Method::FoldingRange => PreReadyOutcome::Empty,
        Method::Hover
        | Method::SignatureHelp
        | Method::PrepareRename
        | Method::SelectionRange
        | Method::SemanticTokensFull
        | Method::SemanticTokensRange => PreReadyOutcome::Null,
    }
}

/// Before the workspace is ready, references and a rename fail; highlights, symbols, completions,
/// definitions, hints, actions and folding ranges are empty; and the rest is null.
pub proof fn law_answers_before_ready(method: Method)
    ensures
        outcome_before_ready(method) is NotReadyError <==> method is References || method is Rename,
        outcome_before_ready(method) is Null <==> method is Hover || method is SignatureHelp
            || method is PrepareRename || method is SelectionRange || method is SemanticTokensFull
            || method is SemanticTokensRange,
{
}

/// The status of a workspace tells whether it is ready, and else why it is not.
pub proof fn law_status_tells<S>(state: WorkspaceState<S>)
    ensures
        match state {
            WorkspaceState::NotReady { detail } => text::has_prefix(
                state.status(),
                "not ready: "@,
            ) && state.status().skip("not ready: "@.len() as int) == detail@,
            WorkspaceState::Failed { detail } => text::has_prefix(
                state.status(),
                "bootstrap failed: "@,
            ) && state.status().skip("bootstrap failed: "@.len() as int) == detail@,
            WorkspaceState::Ready(_) => state.status() == "ready"@,
        },
{
    match state {
        WorkspaceState::NotReady { detail } => {
            let head = "not ready: "@;
            assert(state.status().take(head.len() as int) =~= head);
            assert(state.status().skip(head.len() as int) =~= detail@);
        },
        WorkspaceState::Failed { detail } => {
            let head = "bootstrap failed: "@;
            assert(state.status().take(head.len() as int) =~= head);
            assert(state.status().skip(head.len() as int) =~= detail@);
        },
        WorkspaceState::Ready(_) => {},
    }
}

} // verus!
