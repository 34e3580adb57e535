use ls_server::documents::DocumentStore;
use ls_server::json;
use ls_server::pc_abi::{PcDiagnostic, Rng};
use ls_server::pc_diagnostics::{
    finish_pull, pull_gate, to_lsp_diagnostic, PcDiagnosticsLayer, PcDiagnosticsScheduler,
    PullGate, PullStep, PC_DIAGNOSTICS_SOURCE,
};
use ls_server::protocol::{Diagnostic, Position, PublishDiagnosticsParams, Range};
use serde_json::Value;

fn pc_diag(msg: &str, severity: i32, code: &str) -> Diagnostic {
    to_lsp_diagnostic(&PcDiagnostic {
        range: Rng {
            start_line: 1,
            start_character: 2,
            end_line: 1,
            end_character: 7,
        },
        severity,
        code: code.to_string(),
        message: msg.to_string(),
    })
}

fn bsp_diag(msg: &str) -> Diagnostic {
    Diagnostic {
        range: Range {
            start: Position {
                line: 0,
                character: 0,
            },
            end: Position {
                line: 0,
                character: 4,
            },
        },
        severity: Some(1),
        code: None,
        source: Some("sc".to_string()),
        message: msg.to_string(),
    }
}

/// A layer with the log of what it forwards.
struct Capturing {
    layer: PcDiagnosticsLayer,
    log: Vec<PublishDiagnosticsParams>,
}

impl Capturing {
    fn new() -> Capturing {
        Capturing {
            layer: PcDiagnosticsLayer::new(),
            log: Vec::new(),
        }
    }

    fn set_pc(&mut self, diagnostics: Vec<Diagnostic>) {
        self.log.extend(self.layer.set_pc(URI, diagnostics));
    }

    fn clear_pc(&mut self) {
        self.log.extend(self.layer.clear_pc(URI));
    }

    fn bsp_published(&mut self, diagnostics: Vec<Diagnostic>) {
        let publish = PublishDiagnosticsParams {
            uri: URI.to_string(),
            diagnostics,
        };
        self.log.extend(self.layer.bsp_published(publish));
    }
}

fn messages(publish: &PublishDiagnosticsParams) -> Vec<(String, Option<String>)> {
    publish
        .diagnostics
        .iter()
        .map(|d| (d.message.clone(), d.source.clone()))
        .collect()
}

const URI: &str = "file:///ws/A.scala";

#[test]
fn pc_diagnostics_convert_with_the_typing_source_tag() {
    let d = pc_diag("boom", 1, "E007");
    let rendered: Value = serde_json::from_slice(&json::encode(&d.to_json())).unwrap();
    let expected: Value = serde_json::from_str(
        r#"{
            "range": {
                "start": { "line": 1, "character": 2 },
                "end": { "line": 1, "character": 7 }
            },
            "severity": 1,
            "code": "E007",
            "source": "scala3-pc (typing)",
            "message": "boom"
        }"#,
    )
    .unwrap();
    assert_eq!(rendered, expected);
    let odd = pc_diag("m", 0, "");
    assert_eq!(odd.severity, None);
    assert_eq!(odd.code, None);
    assert_eq!(odd.source.as_deref(), Some(PC_DIAGNOSTICS_SOURCE));
}

#[test]
fn pc_overlay_merges_after_bsp_and_bsp_publish_supersedes_it() {
    let mut layer = Capturing::new();
    layer.set_pc(vec![pc_diag("typing", 1, "")]);
    layer.bsp_published(vec![bsp_diag("compile")]);
    layer.set_pc(vec![pc_diag("typing2", 2, "")]);
    let log = layer.log;
    assert_eq!(log.len(), 3);
    assert_eq!(
        messages(&log[0]),
        vec![(
            "typing".to_string(),
            Some(PC_DIAGNOSTICS_SOURCE.to_string())
        )]
    );
    assert_eq!(
        messages(&log[1]),
        vec![("compile".to_string(), Some("sc".to_string()))]
    );
    assert_eq!(
        messages(&log[2]),
        vec![
            ("compile".to_string(), Some("sc".to_string())),
            (
                "typing2".to_string(),
                Some(PC_DIAGNOSTICS_SOURCE.to_string())
            ),
        ]
    );
}

#[test]
fn clear_pc_republishes_bsp_only_once_and_a_clean_uri_stays_silent() {
    let mut layer = Capturing::new();
    layer.clear_pc();
    layer.set_pc(vec![pc_diag("typing", 1, "")]);
    layer.clear_pc();
    layer.clear_pc();
    let log = layer.log;
    assert_eq!(log.len(), 2, "{log:?}");
    assert_eq!(log[1].uri, URI);
    assert!(log[1].diagnostics.is_empty());
}

#[test]
fn clear_pc_keeps_the_standing_bsp_set() {
    let mut layer = Capturing::new();
    layer.bsp_published(vec![bsp_diag("compile")]);
    layer.set_pc(vec![pc_diag("typing", 1, "")]);
    layer.clear_pc();
    let log = layer.log;
    assert_eq!(log.len(), 3);
    assert_eq!(
        messages(&log[2]),
        vec![("compile".to_string(), Some("sc".to_string()))]
    );
}

#[test]
fn an_empty_pull_over_an_empty_overlay_is_silent() {
    let mut layer = Capturing::new();
    layer.set_pc(Vec::new());
    layer.set_pc(Vec::new());
    assert!(layer.log.is_empty());
}

#[test]
fn a_bsp_clear_drops_the_overlay_and_forwards_once() {
    let mut layer = Capturing::new();
    layer.set_pc(vec![pc_diag("typing", 1, "")]);
    layer.bsp_published(Vec::new());
    let log = layer.log;
    assert_eq!(log.len(), 2);
    assert!(log[1].diagnostics.is_empty());
}

#[test]
fn a_disconnected_layer_forwards_nothing() {
    let mut layer = PcDiagnosticsLayer::disconnected();
    assert!(layer.set_pc(URI, vec![pc_diag("typing", 1, "")]).is_none());
    assert!(layer.clear_pc(URI).is_none());
}

/// A compiler whose buffers and state are given, with the count of its queries.
struct SchedFakePc {
    booted: bool,
    open: bool,
    pulls: usize,
}

impl SchedFakePc {
    fn pc_diagnostics(&mut self, uri: &str) -> Vec<PcDiagnostic> {
        self.pulls += 1;
        vec![PcDiagnostic {
            range: Rng {
                start_line: 0,
                start_character: 0,
                end_line: 0,
                end_character: 0,
            },
            severity: 1,
            code: String::new(),
            message: format!("typing diagnostic for {uri}"),
        }]
    }
}

/// A document whose file is not on disk.
fn dirty_docs(uri: &str) -> DocumentStore {
    let mut docs = DocumentStore::new();
    docs.open(uri, "class A\n");
    docs
}

/// What the worker of the application does, until it has nothing to do.
fn drain(
    scheduler: &mut PcDiagnosticsScheduler,
    pc: &mut SchedFakePc,
    layer: &mut Capturing,
    docs: Option<&DocumentStore>,
    mut now: u64,
) -> u64 {
    loop {
        match scheduler.step(now) {
            PullStep::Exit | PullStep::Idle => return now,
            PullStep::Sleep(nanos) => now += nanos + 1,
            PullStep::Pull(uri) => {
                let dirty = docs.is_some_and(|docs| docs.is_dirty(&uri, None));
                match pull_gate(pc.booted, docs.is_some(), pc.open, dirty) {
                    PullGate::Skip => {}
                    PullGate::Clear => layer.log.extend(layer.layer.clear_pc(&uri)),
                    PullGate::Proceed => {
                        let answer = pc.pc_diagnostics(&uri);
                        let out = finish_pull(&mut layer.layer, &uri, pc.open, dirty, &answer);
                        layer.log.extend(out);
                    }
                }
                scheduler.pull_completed();
            }
        }
    }
}

fn running() -> SchedFakePc {
    SchedFakePc {
        booted: true,
        open: true,
        pulls: 0,
    }
}

#[test]
fn a_scheduled_pull_publishes_the_tagged_overlay() {
    let mut pc = running();
    let mut layer = Capturing::new();
    let docs = dirty_docs(URI);
    let mut scheduler = PcDiagnosticsScheduler::with_debounce(0);
    scheduler.schedule(URI, 0);
    drain(&mut scheduler, &mut pc, &mut layer, Some(&docs), 0);
    assert_eq!(scheduler.pulls_completed(), 1);
    let log = layer.log;
    assert_eq!(log.len(), 1);
    assert_eq!(log[0].diagnostics.len(), 1);
    assert_eq!(
        log[0].diagnostics[0].source.as_deref(),
        Some(PC_DIAGNOSTICS_SOURCE)
    );
}

#[test]
fn a_pull_against_a_cold_island_is_skipped_without_querying() {
    let mut pc = SchedFakePc {
        booted: false,
        ..running()
    };
    let mut layer = Capturing::new();
    let docs = dirty_docs(URI);
    let mut scheduler = PcDiagnosticsScheduler::with_debounce(0);
    scheduler.schedule(URI, 0);
    drain(&mut scheduler, &mut pc, &mut layer, Some(&docs), 0);
    assert_eq!(scheduler.pulls_completed(), 1);
    assert_eq!(pc.pulls, 0);
    assert!(layer.log.is_empty());
}

#[test]
fn rapid_schedules_for_one_uri_coalesce() {
    let mut pc = running();
    let mut layer = Capturing::new();
    let docs = dirty_docs(URI);
    let mut scheduler = PcDiagnosticsScheduler::with_debounce(80_000_000);
    scheduler.schedule(URI, 0);
    scheduler.schedule(URI, 1);
    scheduler.schedule(URI, 2);
    let now = drain(&mut scheduler, &mut pc, &mut layer, Some(&docs), 2);
    assert_eq!(scheduler.pulls_completed(), 1);
    assert_eq!(pc.pulls, 1);
    drain(
        &mut scheduler,
        &mut pc,
        &mut layer,
        Some(&docs),
        now + 300_000_000,
    );
    assert_eq!(scheduler.pulls_completed(), 1);
}

#[test]
fn a_pull_over_a_clean_buffer_clears_the_overlay() {
    let mut pc = running();
    let mut layer = Capturing::new();
    layer.set_pc(vec![pc_diag("stale", 1, "")]);
    let docs = DocumentStore::new();
    let mut scheduler = PcDiagnosticsScheduler::with_debounce(0);
    scheduler.schedule(URI, 0);
    drain(&mut scheduler, &mut pc, &mut layer, Some(&docs), 0);
    assert_eq!(scheduler.pulls_completed(), 1);
    assert_eq!(pc.pulls, 0, "no PC query for a clean buffer");
    let log = layer.log;
    assert_eq!(log.len(), 2, "{log:?}");
    assert!(log[1].diagnostics.is_empty(), "the stale overlay cleared");
}

#[test]
fn cancel_disarms_a_pending_pull() {
    let mut pc = running();
    let mut layer = Capturing::new();
    let docs = dirty_docs(URI);
    let mut scheduler = PcDiagnosticsScheduler::with_debounce(3600 * 1_000_000_000);
    scheduler.schedule(URI, 0);
    scheduler.cancel(URI);
    assert_eq!(scheduler.step(u64::MAX), PullStep::Idle);
    scheduler.schedule(URI, 0);
    scheduler.shut_down();
    drain(&mut scheduler, &mut pc, &mut layer, Some(&docs), u64::MAX);
    assert_eq!(pc.pulls, 0);
    assert!(layer.log.is_empty());
}

#[test]
fn a_pull_without_installed_docs_is_skipped() {
    let mut pc = running();
    let mut layer = Capturing::new();
    let mut scheduler = PcDiagnosticsScheduler::with_debounce(0);
    scheduler.schedule(URI, 0);
    drain(&mut scheduler, &mut pc, &mut layer, None, 0);
    assert_eq!(scheduler.pulls_completed(), 1);
    assert_eq!(pc.pulls, 0);
    assert!(layer.log.is_empty());
}

#[test]
fn an_answer_for_a_buffer_that_was_saved_meanwhile_is_dropped() {
    let mut layer = PcDiagnosticsLayer::new();
    layer.set_pc(URI, vec![pc_diag("stale", 1, "")]);
    let answer = vec![PcDiagnostic {
        range: Rng {
            start_line: 0,
            start_character: 0,
            end_line: 0,
            end_character: 0,
        },
        severity: 1,
        code: String::new(),
        message: "late".to_string(),
    }];
    let out = finish_pull(&mut layer, URI, true, false, &answer).unwrap();
    assert!(out.diagnostics.is_empty());
}

#[test]
fn the_pull_that_is_due_first_comes_first() {
    let mut scheduler = PcDiagnosticsScheduler::with_debounce(10);
    scheduler.schedule("file:///b", 0);
    scheduler.schedule("file:///a", 5);
    assert_eq!(scheduler.step(3), PullStep::Sleep(7));
    assert_eq!(scheduler.step(20), PullStep::Pull("file:///b".to_string()));
    assert_eq!(scheduler.step(20), PullStep::Pull("file:///a".to_string()));
    assert_eq!(scheduler.step(20), PullStep::Idle);
}

#[test]
fn other_files_keep_their_typing_diagnostics() {
    let mut layer = PcDiagnosticsLayer::new();
    layer.set_pc("file:///ws/B.scala", vec![pc_diag("b", 1, "")]);
    layer.set_pc(URI, vec![pc_diag("a", 1, "")]);
    layer.bsp_published(PublishDiagnosticsParams {
        uri: URI.to_string(),
        diagnostics: Vec::new(),
    });
    let out = layer
        .bsp_published(PublishDiagnosticsParams {
            uri: "file:///ws/B.scala".to_string(),
            diagnostics: vec![bsp_diag("compile")],
        })
        .unwrap();
    assert_eq!(
        messages(&out),
        vec![("compile".to_string(), Some("sc".to_string()))]
    );
    let cleared = layer.clear_pc(URI);
    assert!(cleared.is_none());
}
