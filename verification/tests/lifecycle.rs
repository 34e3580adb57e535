use ls_server::lifecycle::{
    pre_ready_outcome, require_ready, Method, PreReadyOutcome, WorkspaceState,
};

type State = WorkspaceState<()>;

#[test]
fn status_line_renders_each_state() {
    assert_eq!(
        State::NotReady { detail: "waiting for the initialized notification".to_string() }
            .status_line(),
        "not ready: waiting for the initialized notification"
    );
    assert_eq!(
        State::Failed { detail: "boom".to_string() }.status_line(),
        "bootstrap failed: boom"
    );
    assert_eq!(State::Ready(()).status_line(), "ready");
}

#[test]
fn only_ready_is_ready_and_exposes_services() {
    let ready = WorkspaceState::Ready("services");
    assert!(ready.is_ready());
    assert_eq!(ready.ready(), Some(&"services"));
    assert!(!State::NotReady { detail: "x".to_string() }.is_ready());
    assert_eq!(State::Failed { detail: "x".to_string() }.ready(), None);
}

#[test]
fn require_ready_passes_only_when_ready_and_carries_the_status() {
    assert_eq!(require_ready(&State::Ready(())), Ok(()));
    let err = require_ready(&State::NotReady { detail: "waiting".to_string() }).unwrap_err();
    assert_eq!(err.message, "workspace is not ready: waiting");
    let failed = require_ready(&State::Failed { detail: "boom".to_string() }).unwrap_err();
    assert_eq!(failed.message, "workspace is bootstrap failed: boom");
}

#[test]
fn references_and_rename_are_typed_not_ready_errors() {
    assert_eq!(pre_ready_outcome(Method::References), PreReadyOutcome::NotReadyError);
    assert_eq!(pre_ready_outcome(Method::Rename), PreReadyOutcome::NotReadyError);
}

#[test]
fn list_producing_methods_are_empty_before_ready() {
    for m in [
        Method::DocumentHighlight,
        Method::WorkspaceSymbol,
        Method::Completion,
        Method::Definition,
        Method::TypeDefinition,
        Method::InlayHint,
        Method::CodeAction,
        Method::FoldingRange,
    ] {
        assert_eq!(pre_ready_outcome(m), PreReadyOutcome::Empty, "{m:?}");
    }
}

#[test]
fn nullable_methods_are_null_before_ready() {
    for m in [
        Method::Hover,
        Method::SignatureHelp,
        Method::PrepareRename,
        Method::SelectionRange,
        Method::SemanticTokensFull,
        Method::SemanticTokensRange,
    ] {
        assert_eq!(pre_ready_outcome(m), PreReadyOutcome::Null, "{m:?}");
    }
}
