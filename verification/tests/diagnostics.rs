use ls_server::bsp;
use ls_server::diagnostics::{to_lsp_diagnostic, DiagnosticRouter};
use ls_server::protocol::{DiagnosticCode, PublishDiagnosticsParams};

type Router = DiagnosticRouter<fn(&str) -> String>;

fn at(start_line: i32, start_char: i32, end_line: i32, end_char: i32) -> bsp::Range {
    bsp::Range {
        start: bsp::Position {
            line: start_line,
            character: start_char,
        },
        end: bsp::Position {
            line: end_line,
            character: end_char,
        },
    }
}

fn diag(msg: &str, sev: i32) -> bsp::Diagnostic {
    bsp::Diagnostic {
        range: Some(at(1, 2, 1, 7)),
        severity: Some(sev),
        code: None,
        source: None,
        message: msg.to_string(),
    }
}

fn publish(
    uri: &str,
    target: &str,
    reset: bool,
    diags: Vec<bsp::Diagnostic>,
) -> bsp::PublishDiagnosticsParams {
    bsp::PublishDiagnosticsParams {
        text_document: bsp::TextDocumentIdentifier {
            uri: uri.to_string(),
        },
        build_target: Some(bsp::BuildTargetIdentifier {
            uri: target.to_string(),
        }),
        diagnostics: diags,
        reset,
        origin_id: None,
    }
}

fn messages(p: &PublishDiagnosticsParams) -> Vec<String> {
    p.diagnostics.iter().map(|d| d.message.clone()).collect()
}

#[test]
fn single_publish_reaches_the_sink_with_converted_content() {
    let mut router = Router::new();
    let out = router
        .accept(&publish(
            "file:///a.scala",
            "t/a",
            true,
            vec![diag("boom", 1)],
        ))
        .expect("a non-empty publish");
    assert_eq!(out.uri, "file:///a.scala");
    assert_eq!(out.diagnostics.len(), 1);
    let d = &out.diagnostics[0];
    assert_eq!(d.message, "boom");
    assert_eq!(d.severity, Some(1));
    assert_eq!(d.range.start.line, 1);
    assert_eq!(d.range.start.character, 2);
    assert_eq!(d.range.end.character, 7);
}

#[test]
fn two_targets_on_one_uri_merge_into_one_publish() {
    let mut router = Router::new();
    router.accept(&publish(
        "file:///a.scala",
        "t/a",
        true,
        vec![diag("from-a", 1)],
    ));
    let out = router
        .accept(&publish(
            "file:///a.scala",
            "t/b",
            true,
            vec![diag("from-b", 2)],
        ))
        .unwrap();
    let msgs: std::collections::HashSet<String> = messages(&out).into_iter().collect();
    assert_eq!(
        msgs,
        ["from-a".to_string(), "from-b".to_string()]
            .into_iter()
            .collect()
    );
}

#[test]
fn reset_replaces_a_targets_diagnostics() {
    let mut router = Router::new();
    router.accept(&publish(
        "file:///a.scala",
        "t/a",
        true,
        vec![diag("old", 1)],
    ));
    let out = router
        .accept(&publish(
            "file:///a.scala",
            "t/a",
            true,
            vec![diag("new", 1)],
        ))
        .unwrap();
    assert_eq!(messages(&out), vec!["new".to_string()]);
}

#[test]
fn clearing_one_target_does_not_clear_a_sibling() {
    let mut router = Router::new();
    router.accept(&publish(
        "file:///a.scala",
        "t/a",
        true,
        vec![diag("from-a", 1)],
    ));
    router.accept(&publish(
        "file:///a.scala",
        "t/b",
        true,
        vec![diag("from-b", 2)],
    ));
    let out = router
        .accept(&publish("file:///a.scala", "t/a", true, vec![]))
        .unwrap();
    assert_eq!(messages(&out), vec!["from-b".to_string()]);
}

#[test]
fn clearing_the_only_target_publishes_an_empty_list() {
    let mut router = Router::new();
    router.accept(&publish(
        "file:///a.scala",
        "t/a",
        true,
        vec![diag("boom", 1)],
    ));
    let out = router
        .accept(&publish("file:///a.scala", "t/a", true, vec![]))
        .expect("a clearing publish");
    assert!(out.diagnostics.is_empty());
    assert!(router
        .accept(&publish("file:///a.scala", "t/a", true, vec![]))
        .is_none());
}

#[test]
fn empty_publish_for_an_already_clean_uri_does_not_publish() {
    let mut router = Router::new();
    let out = router.accept(&publish("file:///a.scala", "t/a", true, vec![]));
    assert!(out.is_none());
}

#[test]
fn non_reset_diagnostics_accumulate_for_a_target() {
    let mut router = Router::new();
    router.accept(&publish(
        "file:///a.scala",
        "t/a",
        true,
        vec![diag("one", 1)],
    ));
    let out = router
        .accept(&publish(
            "file:///a.scala",
            "t/a",
            false,
            vec![diag("two", 1)],
        ))
        .unwrap();
    assert_eq!(messages(&out), vec!["one".to_string(), "two".to_string()]);
}

#[test]
fn to_file_uri_hook_is_applied_to_the_published_uri() {
    let mut router = DiagnosticRouter::with_uri_mapper(|_: &str| "file:///mapped.scala".to_string());
    let out = router
        .accept(&publish("bsp:///whatever", "t/a", true, vec![diag("x", 1)]))
        .unwrap();
    assert_eq!(out.uri, "file:///mapped.scala");
}

#[test]
fn other_files_keep_their_diagnostics() {
    let mut router = Router::new();
    router.accept(&publish("file:///a.scala", "t", true, vec![diag("a", 1)]));
    router.accept(&publish("file:///b.scala", "t", true, vec![diag("b", 1)]));
    router.accept(&publish("file:///a.scala", "t", true, vec![]));
    let out = router
        .accept(&publish("file:///b.scala", "t", false, vec![diag("c", 1)]))
        .unwrap();
    assert_eq!(messages(&out), vec!["b".to_string(), "c".to_string()]);
}

#[test]
fn converts_range_message_severity_and_code() {
    let d = bsp::Diagnostic {
        range: Some(at(3, 4, 5, 6)),
        severity: Some(2),
        code: Some(bsp::DiagnosticCode::String("E123".to_string())),
        source: None,
        message: "hi".to_string(),
    };
    let out = to_lsp_diagnostic(&d);
    assert_eq!(out.message, "hi");
    assert_eq!(out.range.start.line, 3);
    assert_eq!(out.range.start.character, 4);
    assert_eq!(out.range.end.line, 5);
    assert_eq!(out.range.end.character, 6);
    assert_eq!(out.severity, Some(2));
    assert_eq!(out.code, Some(DiagnosticCode::String("E123".to_string())));
}

#[test]
fn missing_severity_stays_none() {
    let d = bsp::Diagnostic {
        range: Some(at(0, 0, 0, 1)),
        severity: None,
        code: None,
        source: None,
        message: "m".to_string(),
    };
    assert_eq!(to_lsp_diagnostic(&d).severity, None);
}

#[test]
fn valid_severities_pass_through_and_out_of_range_maps_to_information() {
    let with_sev = |sev: Option<i32>| bsp::Diagnostic {
        range: Some(at(0, 0, 0, 1)),
        severity: sev,
        code: None,
        source: None,
        message: "m".to_string(),
    };
    for sev in 1..=4 {
        assert_eq!(
            to_lsp_diagnostic(&with_sev(Some(sev))).severity,
            Some(sev as u32)
        );
    }
    assert_eq!(to_lsp_diagnostic(&with_sev(Some(0))).severity, Some(3));
    assert_eq!(to_lsp_diagnostic(&with_sev(Some(5))).severity, Some(3));
    assert_eq!(to_lsp_diagnostic(&with_sev(Some(-1))).severity, Some(3));
    assert_eq!(to_lsp_diagnostic(&with_sev(None)).severity, None);
}

#[test]
fn a_publish_shows_every_report_of_its_file() {
    let mut router = Router::new();
    router.accept(&publish("file:///a.scala", "t/a", true, vec![diag("one", 1)]));
    let out = router
        .accept(&publish("file:///a.scala", "t/b", true, vec![diag("two", 1)]))
        .unwrap();
    assert_eq!(out.diagnostics.len(), 2);
    let again = router
        .accept(&publish("file:///a.scala", "t/b", true, vec![diag("two", 1)]))
        .unwrap();
    assert_eq!(again.diagnostics, out.diagnostics);
}
