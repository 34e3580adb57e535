use std::cell::{Cell, RefCell};

use ls_server::capabilities::SemanticTokensLegend;
use ls_server::doctor::{
    DoctorReport, NixFacts, NixSection, RuntimeSection, StoreSection,
};
use ls_server::documents::DocumentStore;
use ls_server::json::{self, Json};
use ls_server::jsonrpc::{
    error_codes, read_frame, Notification, Request, RequestId, Response, ResponseError,
};
use ls_server::lifecycle::WorkspaceState;
use ls_server::output::OutputSink;
use ls_server::paths::normalize;
use ls_server::protocol::{Diagnostic, Position, PublishDiagnosticsParams, Range};
use ls_server::server::{
    adopt_bootstrap, dispatch_notification, dispatch_request, end_of_input, poll_bootstrap, poll_reload, take_turn,
    Bootstrap, Handlers, Host, NoteAction, RequestContext, ServerCore, Turn,
    WorkerPoll,
};
use serde_json::Value;

/// A bundle of services with a mark that the handler echoes.
#[derive(Clone, Debug, PartialEq, Eq)]
struct FakeServices {
    tag: String,
}

fn parse(text: &str) -> Json {
    json::decode(text.as_bytes()).unwrap()
}

fn value_of(json: &Json) -> Value {
    serde_json::from_slice(&json::encode(json)).unwrap()
}

fn value(text: &str) -> Value {
    serde_json::from_str(text).unwrap()
}

/// Handlers that echo what they are given.
struct EchoHandlers;

impl Handlers<FakeServices> for EchoHandlers {
    fn handle(&self, cx: RequestContext<'_, FakeServices>) -> Response {
        let docs: Vec<Json> =
            cx.documents.open_uris().iter().map(|u| json::string(u)).collect();
        Response::success(
            cx.request.id.clone(),
            Json::Object(vec![
                ("method".to_string(), json::string(&cx.request.method)),
                ("services".to_string(), json::string(&cx.services.tag)),
                (
                    "root".to_string(),
                    match cx.workspace_root {
                        Some(root) => json::string(root),
                        None => Json::Null,
                    },
                ),
                ("openDocs".to_string(), json::array(docs)),
                ("shuttingDown".to_string(), Json::Bool(cx.shutting_down)),
            ]),
        )
    }
}

fn clone_state(state: &WorkspaceState<FakeServices>) -> WorkspaceState<FakeServices> {
    match state {
        WorkspaceState::NotReady { detail } => WorkspaceState::NotReady { detail: detail.clone() },
        WorkspaceState::Failed { detail } => WorkspaceState::Failed { detail: detail.clone() },
        WorkspaceState::Ready(services) => WorkspaceState::Ready(services.clone()),
    }
}

struct FixedBootstrap(WorkspaceState<FakeServices>);

impl Bootstrap<FakeServices> for FixedBootstrap {
    fn build(&self, _workspace_root: Option<String>) -> WorkspaceState<FakeServices> {
        clone_state(&self.0)
    }
}

fn ready(tag: &str) -> WorkspaceState<FakeServices> {
    WorkspaceState::Ready(FakeServices { tag: tag.to_string() })
}

fn failed(detail: &str) -> WorkspaceState<FakeServices> {
    WorkspaceState::Failed { detail: detail.to_string() }
}

fn path_of(uri: &str) -> Option<String> {
    uri.strip_prefix("file://").map(normalize)
}

fn normal_uri(uri: &str) -> String {
    match uri.strip_prefix("file://") {
        Some(path) => format!("file://{}", normalize(path)),
        None => uri.to_string(),
    }
}

fn offline(root: &str) -> DoctorReport {
    DoctorReport::offline(
        RuntimeSection::gather("21".to_string()),
        NixSection::gather(
            root,
            &NixFacts {
                flake_exists: false,
                flake: None,
                lock_exists: false,
                mif_runnable: false,
                build_exists: false,
                lock_modified: None,
                build_modified: None,
            },
        ),
        StoreSection::gather(None),
    )
}

fn note(core: &mut ServerCore<FakeServices>, method: &str, params: Json) -> NoteAction {
    let document = host().document_uri(&params);
    let note = Notification {
        method: method.to_string(),
        params,
    };
    dispatch_notification(core, document, &note)
}

fn host() -> Host<fn(&str) -> Option<String>, fn(&str) -> String, fn(&str) -> DoctorReport> {
    Host {
        legend: SemanticTokensLegend {
            token_types: vec!["method".to_string()],
            token_modifiers: vec!["declaration".to_string()],
        },
        path_of,
        normal_uri,
        offline,
    }
}

fn frame(body: &str) -> Vec<u8> {
    format!("Content-Length: {}\r\n\r\n{}", body.len(), body).into_bytes()
}

fn request(id: i64, method: &str, params: &str) -> Vec<u8> {
    frame(&format!(
        r#"{{"jsonrpc":"2.0","id":{id},"method":"{method}","params":{params}}}"#
    ))
}

fn notification(method: &str, params: &str) -> Vec<u8> {
    frame(&format!(r#"{{"jsonrpc":"2.0","method":"{method}","params":{params}}}"#))
}

fn responses(bytes: Vec<u8>) -> Vec<Value> {
    let mut rest = bytes.as_slice();
    let mut out = Vec::new();
    while let Some((body, used)) = read_frame(rest).unwrap() {
        out.push(serde_json::from_slice(&body).unwrap());
        rest = &rest[used..];
    }
    out
}

/// The loop of the application over a whole input, with a worker that has its result as
/// soon as it is asked for at the end, and not before.
fn serve<H: Handlers<FakeServices>, B: Bootstrap<FakeServices>>(
    core: &mut ServerCore<FakeServices>,
    input: &[u8],
    handlers: &H,
    bootstrap: &B,
) -> Vec<Value> {
    let mut sink = OutputSink::new(Vec::new());
    let mut rest = input;
    let mut exiting = false;
    let mut root: Option<Option<String>> = None;
    while let Some((body, used)) = read_frame(rest).unwrap() {
        rest = &rest[used..];
        let turn = take_turn(core, handlers, bootstrap, &host(), WorkerPoll::Pending, &body);
        if let Some(bytes) = turn.frame {
            sink.send_frame(bytes);
        }
        let services = core.state.ready();
        match turn.action {
            NoteAction::Stop => {
                exiting = true;
                break;
            }
            NoteAction::Bootstrap { root: named } => root = Some(named),
            NoteAction::Opened { uri, text } => {
                handlers.on_did_open(services.unwrap(), &uri, &text)
            }
            NoteAction::Changed { uri, text } => {
                handlers.on_did_change(services.unwrap(), &uri, &text)
            }
            NoteAction::Closed { uri } => handlers.on_did_close(services.unwrap(), &uri),
            NoteAction::Saved { uri } => handlers.on_did_save(services.unwrap(), &uri),
            NoteAction::ConfigurationChanged => {
                handlers.on_did_change_configuration(services.unwrap())
            }
            NoteAction::Nothing | NoteAction::Dropped { .. } => {}
        }
    }
    if end_of_input(core, exiting) {
        let state = bootstrap.build(root.unwrap());
        adopt_bootstrap(core, bootstrap, Some(state));
    }
    responses(sink.written())
}

fn frame_method(frame: &[u8]) -> Option<String> {
    let (body, _) = read_frame(frame).ok()??;
    let value: Value = serde_json::from_slice(&body).ok()?;
    value.get("method")?.as_str().map(str::to_string)
}

/// Serves an input in two passes, split behind `initialized`, so that the workspace is
/// settled before the rest.
fn run(
    input: Vec<Vec<u8>>,
    bootstrap: WorkspaceState<FakeServices>,
) -> (ServerCore<FakeServices>, Vec<Value>) {
    let mut core = ServerCore::new();
    let bootstrap = FixedBootstrap(bootstrap);
    let split = input
        .iter()
        .position(|f| frame_method(f).as_deref() == Some("initialized"))
        .map(|i| i + 1)
        .unwrap_or(input.len());
    let mut out = serve(&mut core, &input[..split].concat(), &EchoHandlers, &bootstrap);
    out.extend(serve(&mut core, &input[split..].concat(), &EchoHandlers, &bootstrap));
    (core, out)
}

#[test]
fn output_sink_publishes_diagnostics_as_a_notification_frame() {
    let publish = PublishDiagnosticsParams {
        uri: "file:///x.scala".to_string(),
        diagnostics: vec![Diagnostic {
            range: Range {
                start: Position { line: 0, character: 0 },
                end: Position { line: 0, character: 4 },
            },
            severity: Some(1),
            code: None,
            source: None,
            message: "boom".to_string(),
        }],
    };
    let mut sink = OutputSink::new(Vec::new());
    sink.publish_diagnostics(&publish);

    let out = responses(sink.written());
    let published = out
        .iter()
        .find(|m| m["method"] == "textDocument/publishDiagnostics")
        .expect("a publishDiagnostics notification");
    assert_eq!(published["params"]["uri"], "file:///x.scala");
    assert_eq!(published["params"]["diagnostics"].as_array().unwrap().len(), 1);
    assert_eq!(
        published["params"]["diagnostics"][0],
        value(
            r#"{"range":{"start":{"line":0,"character":0},"end":{"line":0,"character":4}},
                "severity":1,"message":"boom"}"#
        )
    );
    assert_eq!(sink.take().len(), sink_len(&publish));
    assert!(sink.written().is_empty());
}

fn sink_len(publish: &PublishDiagnosticsParams) -> usize {
    let mut sink = OutputSink::new(Vec::new());
    sink.publish_diagnostics(publish);
    sink.written().len()
}

#[test]
fn frames_of_a_sink_are_read_back_one_by_one() {
    let mut sink = OutputSink::new(Vec::new());
    sink.send(&parse(r#"{"a":1}"#));
    sink.send(&parse("[true,null]"));
    assert_eq!(responses(sink.written()), vec![value(r#"{"a":1}"#), value("[true,null]")]);
}

#[test]
fn pre_ready_lifecycle_serves_fallbacks_and_syncs_documents() {
    let (core, out) = run(
        vec![
            request(1, "initialize", r#"{ "rootUri": "file:///ws" }"#),
            notification(
                "textDocument/didOpen",
                r#"{ "textDocument": { "uri": "file:///ws/a.scala", "text": "hello" } }"#,
            ),
            request(
                2,
                "textDocument/completion",
                r#"{ "textDocument": { "uri": "file:///ws/a.scala" } }"#,
            ),
            request(3, "textDocument/references", "{}"),
            request(4, "textDocument/hover", "{}"),
            request(5, "textDocument/definition", "{}"),
            request(6, "shutdown", "{}"),
            notification("exit", "{}"),
        ],
        ready("unused"),
    );

    assert_eq!(out[0]["id"], 1);
    assert_eq!(out[0]["result"]["serverInfo"]["name"], "scala3-bsp-semantic-ls");
    assert!(!core.state.is_ready());
    assert_eq!(core.workspace_root, Some("/ws".to_string()));
    assert_eq!(core.docs.text("file:///ws/a.scala").as_deref(), Some("hello"));

    assert_eq!(out[1]["id"], 2);
    assert_eq!(out[1]["result"], value(r#"{ "isIncomplete": false, "items": [] }"#));
    assert_eq!(out[2]["id"], 3);
    assert_eq!(out[2]["error"]["code"], error_codes::REQUEST_FAILED);
    assert!(out[2]["error"]["message"]
        .as_str()
        .unwrap()
        .starts_with("workspace is not ready"));
    assert_eq!(out[3]["result"], Value::Null);
    assert_eq!(out[4]["result"], value("[]"));
    assert_eq!(out[5]["result"], Value::Null);
    assert!(core.shutting_down);
}

#[test]
fn ready_context_exposes_services_root_and_documents() {
    let (core, out) = run(
        vec![
            request(1, "initialize", r#"{ "rootUri": "file:///ws" }"#),
            notification(
                "textDocument/didOpen",
                r#"{ "textDocument": { "uri": "file:///ws/a.scala", "text": "x" } }"#,
            ),
            notification("initialized", "{}"),
            request(2, "textDocument/completion", "{}"),
            notification("exit", "{}"),
        ],
        ready("svc-42"),
    );
    assert!(core.state.is_ready());
    let result = &out[1]["result"];
    assert_eq!(result["method"], "textDocument/completion");
    assert_eq!(result["services"], "svc-42");
    assert_eq!(result["root"], "/ws");
    assert_eq!(result["openDocs"], value(r#"["file:///ws/a.scala"]"#));
    assert_eq!(result["shuttingDown"], false);
}

#[test]
fn ready_seam_reaches_every_delegated_method() {
    for (method, params) in [
        ("textDocument/references", "{}"),
        ("textDocument/rename", "{}"),
        ("completionItem/resolve", r#"{ "label": "x" }"#),
        ("workspace/executeCommand", r#"{ "command": "scala3SemanticLs.reindex" }"#),
        ("workspace/executeCommand", r#"{ "command": "scala3SemanticLs.compile" }"#),
    ] {
        let (_core, out) = run(
            vec![
                request(1, "initialize", "{}"),
                notification("initialized", "{}"),
                request(2, method, params),
                notification("exit", "{}"),
            ],
            ready("svc"),
        );
        assert_eq!(out[1]["result"]["services"], "svc", "{method} lost the services");
    }
}

#[test]
fn bootstrap_build_receives_root_and_replay_receives_documents() {
    struct RecordingBootstrap {
        replayed_docs: Cell<usize>,
    }
    impl Bootstrap<FakeServices> for RecordingBootstrap {
        fn build(&self, workspace_root: Option<String>) -> WorkspaceState<FakeServices> {
            ready(&format!("root={}", workspace_root.unwrap_or_default()))
        }
        fn replay(&self, _services: &FakeServices, documents: &DocumentStore) {
            self.replayed_docs.set(documents.open_uris().len());
        }
    }

    let input = [
        request(1, "initialize", r#"{ "rootUri": "file:///ws" }"#),
        notification(
            "textDocument/didOpen",
            r#"{ "textDocument": { "uri": "file:///ws/a.scala", "text": "x" } }"#,
        ),
        notification("initialized", "{}"),
    ]
    .concat();
    let mut core = ServerCore::new();
    let bootstrap = RecordingBootstrap { replayed_docs: Cell::new(0) };
    serve(&mut core, &input, &EchoHandlers, &bootstrap);

    assert_eq!(core.state.ready().unwrap().tag, "root=/ws");
    assert_eq!(
        bootstrap.replayed_docs.get(),
        1,
        "replay did not observe the pre-ready open buffer"
    );
}

#[test]
fn poll_reload_reloads_only_when_ready_and_requested() {
    struct ReloadingBootstrap;
    impl Bootstrap<FakeServices> for ReloadingBootstrap {
        fn build(&self, _workspace_root: Option<String>) -> WorkspaceState<FakeServices> {
            ready("initial")
        }
        fn reload(
            &self,
            _old: FakeServices,
            _documents: &DocumentStore,
        ) -> WorkspaceState<FakeServices> {
            ready("reloaded")
        }
    }

    let mut core: ServerCore<FakeServices> = ServerCore::new();
    core.state = ready("initial");
    core.request_reload();
    poll_reload(&mut core, &ReloadingBootstrap);
    assert_eq!(core.state.ready().unwrap().tag, "reloaded");
    assert!(!core.reload_requested);

    let mut pending: ServerCore<FakeServices> = ServerCore::new();
    pending.request_reload();
    poll_reload(&mut pending, &ReloadingBootstrap);
    assert!(!pending.state.is_ready());
    assert!(pending.reload_requested);

    let mut down: ServerCore<FakeServices> = ServerCore::new();
    down.state = ready("initial");
    down.shutting_down = true;
    down.request_reload();
    poll_reload(&mut down, &ReloadingBootstrap);
    assert_eq!(down.state.ready().unwrap().tag, "initial");
}

#[test]
fn a_bootstrap_without_a_reload_keeps_its_services() {
    let mut core: ServerCore<FakeServices> = ServerCore::new();
    core.state = ready("initial");
    core.request_reload();
    poll_reload(&mut core, &FixedBootstrap(ready("other")));
    assert_eq!(core.state.ready().unwrap().tag, "initial");
    assert!(!core.reload_requested);
}

fn references_request(id: i64) -> Request {
    Request {
        id: RequestId::Number(id),
        method: "textDocument/references".to_string(),
        params: parse("{}"),
    }
}

/// A server behind `initialize` with a worker under way.
fn in_flight() -> ServerCore<FakeServices> {
    let mut core: ServerCore<FakeServices> = ServerCore::new();
    core.initialize(&host(), &parse(r#"{ "rootUri": "file:///ws" }"#));
    core.begin_bootstrap();
    core
}

#[test]
fn poll_bootstrap_adopts_the_workspace_only_when_the_worker_result_arrives() {
    let bootstrap = FixedBootstrap(ready("svc"));
    let mut core = in_flight();

    poll_bootstrap(&mut core, &bootstrap, WorkerPoll::Pending);
    assert!(!core.state.is_ready(), "an empty channel must not adopt");
    assert!(core.bootstrapping, "the worker must be retained");
    let pre = dispatch_request(&mut core, &EchoHandlers, &host(), &references_request(1));
    assert!(
        pre.error.is_some(),
        "a pre-ready request must get the not-ready fallback, got {pre:?}"
    );

    poll_bootstrap(&mut core, &bootstrap, WorkerPoll::Finished(ready("svc")));
    assert!(core.state.is_ready(), "the delivered result must be adopted");
    assert!(!core.bootstrapping, "the worker must be forgotten");
    let post = dispatch_request(&mut core, &EchoHandlers, &host(), &references_request(2));
    assert!(post.error.is_none(), "a ready request must be served, got {post:?}");
    assert_eq!(value_of(&post.result.unwrap())["services"], "svc");
}

#[test]
fn poll_bootstrap_adopts_a_dropped_worker_as_a_failure() {
    let bootstrap = FixedBootstrap(ready("svc"));
    let mut core: ServerCore<FakeServices> = ServerCore::new();
    core.begin_bootstrap();
    poll_bootstrap(&mut core, &bootstrap, WorkerPoll::Gone);
    assert!(matches!(core.state, WorkspaceState::Failed { .. }));
    assert_eq!(
        core.state.status_line(),
        "bootstrap failed: bootstrap worker terminated without a result"
    );
    assert!(!core.bootstrapping);
}

#[test]
fn poll_bootstrap_discards_a_late_ready_after_shutdown() {
    let bootstrap = FixedBootstrap(ready("svc"));
    let mut core = in_flight();

    core.shutdown();
    assert!(core.shutting_down);
    poll_bootstrap(&mut core, &bootstrap, WorkerPoll::Finished(ready("svc")));

    assert!(!core.state.is_ready(), "a late Ready must not resurrect shutdown");
    match &core.state {
        WorkspaceState::NotReady { detail } => assert_eq!(detail, "server is shut down"),
        other => panic!("expected shut-down NotReady, got {:?}", other.status_line()),
    }
    assert!(!core.bootstrapping, "the worker is detached after shutdown");
}

#[test]
fn serve_neither_resurrects_nor_blocks_on_shutdown_then_exit_during_bootstrap() {
    struct UnbuiltBootstrap;
    impl Bootstrap<FakeServices> for UnbuiltBootstrap {
        fn build(&self, _workspace_root: Option<String>) -> WorkspaceState<FakeServices> {
            panic!("the worker must not be waited for")
        }
    }

    let input = [
        request(1, "initialize", r#"{ "rootUri": "file:///ws" }"#),
        notification("initialized", "{}"),
        request(2, "shutdown", "{}"),
        notification("exit", "{}"),
    ]
    .concat();
    let mut core = ServerCore::new();
    let out = serve(&mut core, &input, &EchoHandlers, &UnbuiltBootstrap);

    assert!(!core.state.is_ready(), "a late Ready must not resurrect shutdown");
    match &core.state {
        WorkspaceState::NotReady { detail } => assert_eq!(detail, "server is shut down"),
        other => panic!("expected shut-down NotReady, got {:?}", other.status_line()),
    }
    assert!(out.iter().any(|r| r["id"] == 2 && r["result"] == Value::Null));
    assert!(!core.bootstrapping);
}

#[test]
fn serve_reaches_ready_on_clean_eof_without_shutdown_or_exit() {
    let input = [
        request(1, "initialize", r#"{ "rootUri": "file:///ws" }"#),
        notification("initialized", "{}"),
    ]
    .concat();
    let mut core = ServerCore::new();
    serve(&mut core, &input, &EchoHandlers, &FixedBootstrap(ready("svc")));
    assert!(core.state.is_ready(), "a clean EOF after initialized must drain to Ready");
    assert_eq!(core.state.ready().unwrap().tag, "svc");
}

#[test]
fn pre_ready_in_flight_bootstrap_serves_every_method_fallback() {
    #[derive(Debug)]
    enum Shape {
        Error,
        Null,
        Empty(&'static str),
    }
    let cases = [
        ("textDocument/references", Shape::Error),
        ("textDocument/rename", Shape::Error),
        ("textDocument/documentHighlight", Shape::Empty("[]")),
        ("workspace/symbol", Shape::Empty("[]")),
        ("textDocument/definition", Shape::Empty("[]")),
        ("textDocument/typeDefinition", Shape::Empty("[]")),
        (
            "textDocument/completion",
            Shape::Empty(r#"{ "isIncomplete": false, "items": [] }"#),
        ),
        ("textDocument/prepareRename", Shape::Null),
        ("textDocument/hover", Shape::Null),
        ("textDocument/signatureHelp", Shape::Null),
    ];
    for (method, expected) in cases {
        let bootstrap = FixedBootstrap(ready("svc"));
        let mut core = in_flight();
        poll_bootstrap(&mut core, &bootstrap, WorkerPoll::Pending);
        assert!(!core.state.is_ready(), "{method}: worker in flight is not ready");

        let resp = dispatch_request(
            &mut core,
            &EchoHandlers,
            &host(),
            &Request {
                id: RequestId::Number(1),
                method: method.to_string(),
                params: parse("{}"),
            },
        );
        match expected {
            Shape::Error => assert!(
                resp.error.is_some(),
                "{method}: expected a not-ready error, got {resp:?}"
            ),
            Shape::Null => {
                assert!(resp.error.is_none(), "{method}: unexpected error {resp:?}");
                assert_eq!(resp.result, Some(Json::Null), "{method}: expected null");
            }
            Shape::Empty(text) => {
                assert!(resp.error.is_none(), "{method}: unexpected error {resp:?}");
                assert_eq!(
                    value_of(&resp.result.unwrap()),
                    value(text),
                    "{method}: wrong empty shape"
                );
            }
        }
    }
}

#[test]
fn doctor_renders_the_state_header_and_all_sections_in_every_state() {
    let doctor = |state: WorkspaceState<FakeServices>, send_initialized: bool| {
        let mut input = vec![request(1, "initialize", "{}")];
        if send_initialized {
            input.push(notification("initialized", "{}"));
        }
        input.push(request(
            2,
            "workspace/executeCommand",
            r#"{ "command": "scala3SemanticLs.doctor" }"#,
        ));
        input.push(notification("exit", "{}"));
        let (_core, out) = run(input, state);
        out[1]["result"].as_str().unwrap().to_string()
    };
    let assert_report = |report: &str, expected_state: &str| {
        assert!(
            report.starts_with(&format!("state: {expected_state}\n\n")),
            "{report}"
        );
        for heading in [
            "Runtime:",
            "Nix:",
            "BSP:",
            "SemanticDB:",
            "Store:",
            "PC:",
            "PC Plugins:",
        ] {
            assert!(report.contains(heading), "missing {heading} in {report}");
        }
        assert!(
            report.contains("BSP:\n  unavailable: no BSP connection"),
            "{report}"
        );
    };
    assert_report(
        &doctor(ready("unused"), false),
        "not ready: waiting for the initialized notification",
    );
    assert_report(&doctor(ready("svc"), true), "ready");
    assert_report(
        &doctor(failed("no build server"), true),
        "bootstrap failed: no build server",
    );
}

#[test]
fn the_report_of_the_services_wins_over_the_offline_one() {
    struct LiveHandlers;
    impl Handlers<FakeServices> for LiveHandlers {
        fn handle(&self, cx: RequestContext<'_, FakeServices>) -> Response {
            Response::success(cx.request.id.clone(), Json::Null)
        }
        fn doctor(&self, services: &FakeServices, root: Option<&str>) -> Option<DoctorReport> {
            let mut report = offline(root.unwrap_or("?"));
            report.runtime.java = format!("live {}", services.tag);
            Some(report)
        }
    }
    let mut core = in_flight();
    core.state = ready("svc");
    let doctor = Request {
        id: RequestId::Number(9),
        method: "workspace/executeCommand".to_string(),
        params: parse(r#"{ "command": "scala3SemanticLs.doctor" }"#),
    };
    let response = dispatch_request(&mut core, &LiveHandlers, &host(), &doctor);
    let text = value_of(&response.result.unwrap()).as_str().unwrap().to_string();
    assert!(text.contains("  Java: live svc\n"), "{text}");
    assert!(text.contains("no flake.nix under /ws"), "{text}");
}

#[test]
fn doctor_json_argument_returns_the_structured_report() {
    let input = vec![
        request(1, "initialize", "{}"),
        request(
            2,
            "workspace/executeCommand",
            r#"{ "command": "scala3SemanticLs.doctor", "arguments": [{ "json": true }] }"#,
        ),
        notification("exit", "{}"),
    ];
    let (_core, out) = run(input, ready("svc"));
    let result = &out[1]["result"];
    assert!(result.is_object(), "json result is an object: {result}");
    assert!(result.get("store").is_some());
    assert!(result.get("sqlite").is_none());
    assert_eq!(
        result["state"],
        "not ready: waiting for the initialized notification"
    );
}

#[test]
fn a_failed_bootstrap_leaves_the_workspace_failed() {
    let (core, _out) = run(
        vec![
            request(1, "initialize", "{}"),
            notification("initialized", "{}"),
            notification("exit", "{}"),
        ],
        failed("no build server"),
    );
    assert!(matches!(core.state, WorkspaceState::Failed { .. }));
    assert_eq!(core.state.status_line(), "bootstrap failed: no build server");
}

#[test]
fn a_request_before_initialize_is_server_not_initialized() {
    let (_core, out) = run(
        vec![
            request(1, "textDocument/hover", "{}"),
            notification("exit", "{}"),
        ],
        ready("unused"),
    );
    assert_eq!(out[0]["error"]["code"], error_codes::SERVER_NOT_INITIALIZED);
    assert_eq!(
        out[0]["error"]["message"],
        "received textDocument/hover before initialize"
    );
}

#[test]
fn an_unknown_method_and_a_body_that_is_no_message_are_errors() {
    let (_core, out) = run(
        vec![
            request(1, "initialize", "{}"),
            request(2, "textDocument/unheardOf", "{}"),
            frame("{ not json"),
            frame("[]"),
            notification("exit", "{}"),
        ],
        ready("unused"),
    );
    assert_eq!(out[1]["error"]["code"], error_codes::METHOD_NOT_FOUND);
    assert_eq!(
        out[1]["error"]["message"],
        "unhandled request: textDocument/unheardOf"
    );
    assert_eq!(out[2]["id"], Value::Null);
    assert_eq!(out[2]["error"]["code"], error_codes::PARSE_ERROR);
    assert_eq!(out[3]["error"]["code"], error_codes::INVALID_REQUEST);
}

#[test]
fn execute_command_pre_ready_and_unknown() {
    let (_core, out) = run(
        vec![
            request(1, "initialize", "{}"),
            request(
                2,
                "workspace/executeCommand",
                r#"{ "command": "scala3SemanticLs.reindex" }"#,
            ),
            request(3, "workspace/executeCommand", r#"{ "command": "bogus.command" }"#),
            request(4, "workspace/executeCommand", "{}"),
            request(
                5,
                "workspace/executeCommand",
                r#"{ "command": "scala3SemanticLs.pcPluginStatus" }"#,
            ),
            notification("exit", "{}"),
        ],
        ready("unused"),
    );
    assert_eq!(
        out[1]["result"],
        "reindex unavailable: workspace is not ready: waiting for the initialized notification"
    );
    assert_eq!(out[2]["error"]["code"], error_codes::INVALID_PARAMS);
    assert_eq!(out[2]["error"]["message"], "unknown command 'bogus.command'");
    assert_eq!(out[3]["error"]["message"], "unknown command 'null'");
    assert_eq!(
        out[4]["result"],
        "pc plugin status unavailable: workspace is not ready: \
         waiting for the initialized notification"
    );
}

#[test]
fn completion_item_resolve_echoes_pre_ready() {
    let (_core, out) = run(
        vec![
            request(1, "initialize", "{}"),
            request(2, "completionItem/resolve", r#"{ "label": "foo", "data": 7 }"#),
            notification("exit", "{}"),
        ],
        ready("unused"),
    );
    assert_eq!(out[1]["result"], value(r#"{ "label": "foo", "data": 7 }"#));
}

#[test]
fn shutdown_is_idempotent() {
    let mut core: ServerCore<FakeServices> = ServerCore::new();
    core.shutdown();
    core.state = ready("late");
    core.shutdown();
    assert!(core.state.is_ready());
    assert!(core.shutting_down);
}

#[test]
fn the_root_is_the_first_workspace_folder_where_there_is_no_root_uri() {
    let mut core: ServerCore<FakeServices> = ServerCore::new();
    core.initialize(
        &host(),
        &parse(r#"{ "rootUri": null, "workspaceFolders": [{ "uri": "file:///a/../b" }] }"#),
    );
    assert_eq!(core.workspace_root, Some("/b".to_string()));
    core.initialize(&host(), &parse(r#"{ "rootUri": "http://elsewhere" }"#));
    assert_eq!(core.workspace_root, None);
}

#[test]
fn did_change_folds_the_event_list_and_did_close_drops_the_buffer() {
    let mut core: ServerCore<FakeServices> = ServerCore::new();
    note(&mut core, "textDocument/didOpen", parse(
        r#"{ "textDocument": { "uri": "file:///a", "version": 1, "text": "v1" } }"#,
    ));
    assert_eq!(core.docs.version("file:///a"), Some(1));
    note(&mut core, "textDocument/didChange", parse(
        r#"{
            "textDocument": { "uri": "file:///a", "version": 2 },
            "contentChanges": [
                { "text": "stale" },
                { "text": "v2" },
                {
                    "range": {
                        "start": { "line": 0, "character": 2 },
                        "end": { "line": 0, "character": 2 }
                    },
                    "text": ".1"
                }
            ]
        }"#,
    ));
    assert_eq!(core.docs.text("file:///a").as_deref(), Some("v2.1"));
    assert_eq!(core.docs.version("file:///a"), Some(2));
    note(&mut core, "textDocument/didClose", parse(r#"{ "textDocument": { "uri": "file:///a" } }"#));
    assert!(!core.docs.is_open("file:///a"));
}

#[test]
fn a_ranged_did_change_for_a_never_opened_buffer_is_dropped() {
    let mut core: ServerCore<FakeServices> = ServerCore::new();
    let action = note(&mut core, "textDocument/didChange", parse(
        r#"{
            "textDocument": { "uri": "file:///never-opened", "version": 1 },
            "contentChanges": [{
                "range": {
                    "start": { "line": 0, "character": 0 },
                    "end": { "line": 0, "character": 0 }
                },
                "text": "X"
            }]
        }"#,
    ));
    assert!(!core.docs.is_open("file:///never-opened"));
    assert_eq!(
        action,
        NoteAction::Dropped {
            message: "ls-server: dropping a ranged didChange for file:///never-opened: the buffer \
                      was never opened"
                .to_string()
        }
    );
}

#[test]
fn malformed_change_events_are_dropped_together() {
    let mut core: ServerCore<FakeServices> = ServerCore::new();
    note(&mut core, "textDocument/didOpen", parse(r#"{ "textDocument": { "uri": "file:///a", "text": "v1" } }"#));
    let action = note(&mut core, "textDocument/didChange", parse(
        r#"{
            "textDocument": { "uri": "file:///a" },
            "contentChanges": [{ "text": "v2" }, { "text": 3 }]
        }"#,
    ));
    assert_eq!(core.docs.text("file:///a").as_deref(), Some("v1"));
    assert_eq!(
        action,
        NoteAction::Dropped {
            message: "ls-server: ignoring a didChange with unparseable contentChanges for \
                      file:///a"
                .to_string()
        }
    );
}

#[test]
fn did_save_with_text_refreshes_an_open_buffer_only() {
    let mut core: ServerCore<FakeServices> = ServerCore::new();
    let saved = r#"{ "textDocument": { "uri": "file:///a" }, "text": "saved" }"#;
    note(&mut core, "textDocument/didSave", parse(saved));
    assert!(!core.docs.is_open("file:///a"));
    note(&mut core, "textDocument/didOpen", parse(r#"{ "textDocument": { "uri": "file:///a", "text": "v1" } }"#));
    note(&mut core, "textDocument/didSave", parse(saved));
    assert_eq!(core.docs.text("file:///a").as_deref(), Some("saved"));
}

#[test]
fn document_notifications_forward_to_the_lifecycle_hooks_when_ready() {
    #[derive(Default)]
    struct RecordingHandlers {
        events: RefCell<Vec<String>>,
    }
    impl Handlers<FakeServices> for RecordingHandlers {
        fn handle(&self, cx: RequestContext<'_, FakeServices>) -> Response {
            Response::success(cx.request.id.clone(), Json::Null)
        }
        fn on_did_open(&self, services: &FakeServices, uri: &str, text: &str) {
            self.events
                .borrow_mut()
                .push(format!("open {} {uri} {text}", services.tag));
        }
        fn on_did_change(&self, _services: &FakeServices, uri: &str, text: &str) {
            self.events.borrow_mut().push(format!("change {uri} {text}"));
        }
        fn on_did_close(&self, _services: &FakeServices, uri: &str) {
            self.events.borrow_mut().push(format!("close {uri}"));
        }
    }

    let drive = |ready_state: bool| {
        let bootstrap = FixedBootstrap(if ready_state {
            ready("svc")
        } else {
            failed("no build server")
        });
        let mut core = ServerCore::new();
        let handlers = RecordingHandlers::default();
        let pre = [
            request(1, "initialize", r#"{ "rootUri": "file:///ws" }"#),
            notification("initialized", "{}"),
        ]
        .concat();
        let post = [
            notification(
                "textDocument/didOpen",
                r#"{ "textDocument": { "uri": "file:///ws/x/../a.scala", "text": "v1" } }"#,
            ),
            notification(
                "textDocument/didChange",
                r#"{
                    "textDocument": { "uri": "file:///ws/a.scala" },
                    "contentChanges": [ { "text": "v2" } ]
                }"#,
            ),
            notification(
                "textDocument/didClose",
                r#"{ "textDocument": { "uri": "file:///ws/a.scala" } }"#,
            ),
            notification("exit", "{}"),
        ]
        .concat();
        for group in [pre, post] {
            serve(&mut core, &group, &handlers, &bootstrap);
        }
        handlers.events.into_inner()
    };

    assert_eq!(
        drive(true),
        vec![
            "open svc file:///ws/a.scala v1".to_string(),
            "change file:///ws/a.scala v2".to_string(),
            "close file:///ws/a.scala".to_string(),
        ]
    );
    assert!(drive(false).is_empty());
}

#[test]
fn a_client_response_frame_is_consumed_without_an_error_frame() {
    let (core, out) = run(
        vec![
            request(1, "initialize", r#"{ "rootUri": "file:///ws" }"#),
            frame(r#"{ "jsonrpc": "2.0", "id": 99, "result": { "ok": true } }"#),
            frame(
                r#"{ "jsonrpc": "2.0", "id": 100, "error": { "code": -32601, "message": "nope" } }"#,
            ),
            request(2, "shutdown", "{}"),
            notification("exit", "{}"),
        ],
        ready("unused"),
    );
    assert_eq!(out.len(), 2, "{out:?}");
    assert_eq!(out[0]["id"], 1);
    assert_eq!(out[1]["id"], 2);
    assert!(out.iter().all(|m| m.get("error").is_none()), "{out:?}");
    assert!(core.shutting_down, "the loop continued past the responses");
}

#[test]
fn did_change_configuration_forwards_to_the_hook_only_when_ready() {
    #[derive(Default)]
    struct ConfigRecordingHandlers {
        calls: RefCell<Vec<String>>,
    }
    impl Handlers<FakeServices> for ConfigRecordingHandlers {
        fn handle(&self, cx: RequestContext<'_, FakeServices>) -> Response {
            Response::success(cx.request.id.clone(), Json::Null)
        }
        fn on_did_change_configuration(&self, services: &FakeServices) {
            self.calls.borrow_mut().push(services.tag.clone());
        }
    }

    let drive = |ready_state: bool| {
        let bootstrap = FixedBootstrap(if ready_state {
            ready("svc")
        } else {
            failed("no build server")
        });
        let mut core = ServerCore::new();
        let handlers = ConfigRecordingHandlers::default();
        let pre = [
            request(1, "initialize", r#"{ "rootUri": "file:///ws" }"#),
            notification("initialized", "{}"),
        ]
        .concat();
        let post = [
            notification(
                "workspace/didChangeConfiguration",
                r#"{ "settings": { "ignored": true } }"#,
            ),
            notification("exit", "{}"),
        ]
        .concat();
        for group in [pre, post] {
            serve(&mut core, &group, &handlers, &bootstrap);
        }
        handlers.calls.into_inner()
    };

    assert_eq!(drive(true), vec!["svc".to_string()]);
    assert!(drive(false).is_empty());
}

#[test]
fn a_second_initialized_starts_no_second_worker() {
    let mut core: ServerCore<FakeServices> = ServerCore::new();
    assert_eq!(core.begin_bootstrap(), NoteAction::Bootstrap { root: None });
    assert_eq!(core.begin_bootstrap(), NoteAction::Nothing);
}

#[test]
fn requests_of_the_compiler_have_fallbacks_before_ready_and_reach_the_services_after() {
    let methods = [
        ("textDocument/inlayHint", "[]"),
        ("textDocument/codeAction", "[]"),
        ("textDocument/selectionRange", "null"),
        ("textDocument/foldingRange", "[]"),
        ("textDocument/semanticTokens/full", "null"),
        ("textDocument/semanticTokens/range", "null"),
    ];
    for (method, fallback) in methods {
        let input = [
            request(1, "initialize", "{}"),
            request(2, method, "{}"),
            notification("exit", "{}"),
        ]
        .concat();
        let mut core = ServerCore::new();
        let out = serve(&mut core, &input, &EchoHandlers, &FixedBootstrap(ready("svc")));
        assert_eq!(out[1]["result"], value(fallback), "{method}");

        let (_core, out) = run(
            vec![
                request(1, "initialize", "{}"),
                notification("initialized", "{}"),
                request(2, method, "{}"),
                notification("exit", "{}"),
            ],
            ready("svc"),
        );
        assert_eq!(out[1]["result"]["services"], "svc", "{method} lost the services");
        assert_eq!(out[1]["result"]["method"], method);
    }
}

fn turn_of(core: &mut ServerCore<FakeServices>, body: &str) -> Turn {
    take_turn(
        core,
        &EchoHandlers,
        &FixedBootstrap(ready("svc")),
        &host(),
        WorkerPoll::Pending,
        body.as_bytes(),
    )
}

#[test]
fn a_dropped_client_response_is_told_with_its_id() {
    let mut core = ServerCore::new();
    for (id, shown) in [
        ("7", "Some(Number(7))".to_string()),
        ("-1", "Some(Number(-1))".to_string()),
        (r#""a\"b""#, format!("Some(String({:?}))", "a\"b")),
        ("null", "None".to_string()),
    ] {
        let turn = turn_of(&mut core, &format!(r#"{{"jsonrpc":"2.0","id":{id},"result":null}}"#));
        match turn.action {
            NoteAction::Dropped { message } => assert_eq!(
                message,
                format!(
                    "ls-server: ignoring a client response with no matching request (id: {shown})"
                )
            ),
            _ => panic!("expected the response to be dropped"),
        }
        assert!(turn.frame.is_none() && turn.warning.is_none());
    }
}

#[test]
fn a_stale_did_change_is_applied_with_a_warning() {
    let mut core = ServerCore::new();
    turn_of(&mut core, r#"{"jsonrpc":"2.0","id":1,"method":"initialize","params":{}}"#);
    turn_of(
        &mut core,
        r#"{"jsonrpc":"2.0","method":"textDocument/didOpen","params":{"textDocument":{"uri":"file:///a","version":4,"text":"x"}}}"#,
    );
    let change = |version: i64, changes: &str| {
        format!(
            r#"{{"jsonrpc":"2.0","method":"textDocument/didChange","params":{{"textDocument":{{"uri":"file:///a","version":{version}}},"contentChanges":{changes}}}}}"#
        )
    };
    let turn = turn_of(&mut core, &change(4, r#"[{"text":"y"}]"#));
    assert_eq!(
        turn.warning.as_deref(),
        Some(
            "ls-server: didChange version 4 for file:///a is not newer than the stored 4; \
             applying the edits anyway"
        )
    );
    assert_eq!(core.docs.text("file:///a").as_deref(), Some("y"));
    assert_eq!(turn_of(&mut core, &change(4, "[]")).warning, None);
    assert_eq!(turn_of(&mut core, &change(5, r#"[{"text":"z"}]"#)).warning, None);
    assert_eq!(core.docs.text("file:///a").as_deref(), Some("z"));
}

#[test]
fn services_that_become_ready_are_handed_the_documents_by_each_adoption() {
    struct Replaying(RefCell<Vec<String>>);
    impl Bootstrap<FakeServices> for Replaying {
        fn build(&self, _workspace_root: Option<String>) -> WorkspaceState<FakeServices> {
            ready("svc")
        }
        fn replay(&self, services: &FakeServices, documents: &DocumentStore) {
            let mut seen = self.0.borrow_mut();
            seen.push(services.tag.clone());
            seen.extend(documents.open_uris());
        }
    }
    let seen = |shut: bool, poll: WorkerPoll<FakeServices>| {
        let mut core = in_flight();
        core.docs.open("file:///a", "x");
        core.shutting_down = shut;
        let bootstrap = Replaying(RefCell::new(Vec::new()));
        poll_bootstrap(&mut core, &bootstrap, poll);
        bootstrap.0.into_inner()
    };
    assert_eq!(seen(false, WorkerPoll::Finished(ready("svc"))), vec!["svc", "file:///a"]);
    assert!(seen(true, WorkerPoll::Finished(ready("svc"))).is_empty());
    assert!(seen(false, WorkerPoll::Finished(failed("no"))).is_empty());
    assert!(seen(false, WorkerPoll::Gone).is_empty());
}

#[test]
fn a_response_is_written_in_the_order_of_its_declaration() {
    struct Unordered;
    impl Handlers<FakeServices> for Unordered {
        fn handle(&self, cx: RequestContext<'_, FakeServices>) -> Response {
            let value = Json::Object(vec![
                ("b".to_string(), Json::Array(vec![parse(r#"{"z": 1, "y": 2}"#)])),
                ("a".to_string(), Json::Null),
            ]);
            let id = cx.request.id.clone();
            if cx.request.method == "textDocument/hover" {
                return Response::success(id, value);
            }
            let mut error = ResponseError::new(7, "no");
            error.data = Some(value);
            Response::failure(id, error)
        }
    }
    let mut core = ServerCore::new();
    core.initialized = true;
    core.state = ready("svc");
    let mut body = |text: &str| {
        let bootstrap = FixedBootstrap(ready("svc"));
        let poll = WorkerPoll::Pending;
        let turn = take_turn(&mut core, &Unordered, &bootstrap, &host(), poll, text.as_bytes());
        let (body, _) = read_frame(&turn.frame.unwrap()).unwrap().unwrap();
        String::from_utf8(body).unwrap()
    };
    assert_eq!(
        body(r#"{"jsonrpc":"2.0","id":3,"method":"textDocument/hover"}"#),
        r#"{"jsonrpc":"2.0","id":3,"result":{"a":null,"b":[{"y":2,"z":1}]}}"#
    );
    assert_eq!(
        body(r#"{"jsonrpc":"2.0","id":"x","method":"textDocument/rename"}"#),
        r#"{"jsonrpc":"2.0","id":"x","error":{"code":7,"message":"no","data":{"a":null,"b":[{"y":2,"z":1}]}}}"#
    );
    let refused = body("[]");
    assert!(
        refused.starts_with(r#"{"jsonrpc":"2.0","id":null,"error":{"code":"#),
        "{refused}"
    );
}

#[test]
fn a_publish_is_written_in_name_order_and_read_back() {
    let publish = PublishDiagnosticsParams {
        uri: "file:///a".to_string(),
        diagnostics: vec![Diagnostic {
            range: Range {
                start: Position { line: 1, character: 2 },
                end: Position { line: 3, character: 4 },
            },
            severity: Some(1),
            code: None,
            source: Some("bsp".to_string()),
            message: "boom".to_string(),
        }],
    };
    let mut sink = OutputSink::new(Vec::new());
    sink.publish_diagnostics(&publish);
    let bytes = sink.written();
    let (body, _) = read_frame(&bytes).unwrap().unwrap();
    assert_eq!(
        String::from_utf8(body.clone()).unwrap(),
        [
            r#"{"jsonrpc":"2.0","method":"textDocument/publishDiagnostics","params":{"diagnostics":["#,
            r#"{"message":"boom","range":{"end":{"character":4,"line":3},"#,
            r#""start":{"character":2,"line":1}},"severity":1,"source":"bsp"}],"uri":"file:///a"}}"#,
        ]
        .concat()
    );
    assert_eq!(json::decode(&body), Ok(publish.to_message()));
}
