use ls_server::convert::{
    highlight_kind, location, range, span, symbol_kind, workspace_edit, DocumentHighlight,
    DocumentHighlightKind, HighlightKind, LsError, Span, SymKind, TextEditSpan, WorkspaceEditPlan,
};
use ls_server::json::{self, Json};
use serde_json::Value;

fn value_of(json: &Json) -> Value {
    serde_json::from_slice(&json::encode(json)).unwrap()
}

fn value(text: &str) -> Value {
    serde_json::from_str(text).unwrap()
}

#[test]
fn span_maps_to_range_directly_and_back() {
    let s = Span::new(1, 2, 3, 4);
    let r = range(s);
    assert_eq!(
        value_of(&r.to_json()),
        value(r#"{ "start": { "line": 1, "character": 2 }, "end": { "line": 3, "character": 4 } }"#)
    );
    assert_eq!(span(&r), s);
}

#[test]
fn location_serializes_to_uri_and_range() {
    let loc = location("file:///ws/a.scala", Span::new(0, 0, 0, 3));
    assert_eq!(
        value_of(&loc.to_json()),
        value(
            r#"{
                "uri": "file:///ws/a.scala",
                "range": { "start": { "line": 0, "character": 0 }, "end": { "line": 0, "character": 3 } }
            }"#
        )
    );
}

#[test]
fn highlight_kind_maps_read_and_write_to_lsp_codes() {
    assert_eq!(
        highlight_kind(HighlightKind::Read),
        DocumentHighlightKind::Read
    );
    assert_eq!(
        highlight_kind(HighlightKind::Write),
        DocumentHighlightKind::Write
    );
    assert_eq!(DocumentHighlightKind::Read.code(), 2);
    assert_eq!(DocumentHighlightKind::Write.code(), 3);
    assert_eq!(DocumentHighlightKind::Text.code(), 1);
}

#[test]
fn document_highlight_serializes_range_and_kind() {
    let h = DocumentHighlight {
        range: range(Span::new(2, 4, 2, 8)),
        kind: DocumentHighlightKind::Write,
    };
    assert_eq!(
        value_of(&h.to_json()),
        value(
            r#"{
                "range": { "start": { "line": 2, "character": 4 }, "end": { "line": 2, "character": 8 } },
                "kind": 3
            }"#
        )
    );
}

#[test]
fn symbol_kind_maps_every_arm_to_the_lsp_code() {
    let cases = [
        (SymKind::Class, 5),
        (SymKind::Trait, 11),
        (SymKind::Interface, 11),
        (SymKind::Object, 19),
        (SymKind::PackageObject, 19),
        (SymKind::Method, 6),
        (SymKind::Macro, 6),
        (SymKind::Constructor, 9),
        (SymKind::Type, 5),
        (SymKind::TypeParameter, 26),
        (SymKind::Field, 8),
        (SymKind::Package, 4),
        (SymKind::LocalValue, 13),
        (SymKind::LocalVariable, 13),
        (SymKind::Parameter, 13),
        (SymKind::SelfParameter, 13),
        (SymKind::UnknownKind, 21),
    ];
    for (kind, code) in cases {
        assert_eq!(symbol_kind(kind).code(), code, "{kind:?}");
    }
}

fn edit(span: Span, new_text: &str) -> TextEditSpan {
    TextEditSpan {
        span,
        new_text: new_text.to_string(),
    }
}

#[test]
fn workspace_edit_keys_by_file_uri_in_sorted_order() {
    let plan = WorkspaceEditPlan {
        edits: vec![
            ("a/A.scala".to_string(), vec![edit(Span::new(1, 2, 1, 3), "X")]),
            ("b/B.scala".to_string(), vec![edit(Span::new(0, 0, 0, 1), "Y")]),
        ],
        occurrence_count: 2,
    };
    let edit = workspace_edit(&plan, |sdb: &str| Some(format!("file:///root/{sdb}")))
        .ok()
        .unwrap();
    let json = edit.to_json();
    assert_eq!(
        value_of(&json),
        value(
            r#"{
                "changes": {
                    "file:///root/a/A.scala": [
                        { "range": { "start": { "line": 1, "character": 2 }, "end": { "line": 1, "character": 3 } }, "newText": "X" }
                    ],
                    "file:///root/b/B.scala": [
                        { "range": { "start": { "line": 0, "character": 0 }, "end": { "line": 0, "character": 1 } }, "newText": "Y" }
                    ]
                }
            }"#
        )
    );
    match json.get("changes").unwrap() {
        Json::Object(members) => assert_eq!(
            members.iter().map(|m| m.0.as_str()).collect::<Vec<_>>(),
            vec!["file:///root/a/A.scala", "file:///root/b/B.scala"]
        ),
        other => panic!("expected an object, got {other:?}"),
    }
}

#[test]
fn workspace_edit_fails_when_an_edited_uri_is_unresolvable() {
    let plan = WorkspaceEditPlan {
        edits: vec![("gone/G.scala".to_string(), vec![edit(Span::new(0, 0, 0, 1), "Z")])],
        occurrence_count: 1,
    };
    let err = workspace_edit(&plan, |_: &str| None).err().unwrap();
    assert!(matches!(err, LsError::NotIndexed { uri } if uri == "gone/G.scala"));
}

#[test]
fn workspace_edit_keeps_the_edits_of_every_uri_of_a_file() {
    let edit = |line: u32, text: &str| TextEditSpan {
        span: Span::new(line, 0, line, 1),
        new_text: text.to_string(),
    };
    let plan = WorkspaceEditPlan {
        edits: vec![
            ("a.scala".to_string(), vec![edit(0, "p"), edit(1, "q")]),
            ("b.scala".to_string(), vec![edit(2, "r")]),
            ("./a.scala".to_string(), vec![edit(3, "s")]),
        ],
        occurrence_count: 4,
    };
    let merged = workspace_edit(&plan, |sdb: &str| {
        Some(format!("file:///root/{}", sdb.trim_start_matches("./")))
    })
    .ok()
    .unwrap();
    let changes = &value_of(&merged.to_json())["changes"];
    let texts = |file: &str| -> Vec<String> {
        let mut list: Vec<String> = changes[file]
            .as_array()
            .unwrap()
            .iter()
            .map(|edit| edit["newText"].as_str().unwrap().to_string())
            .collect();
        list.sort();
        list
    };
    assert_eq!(texts("file:///root/a.scala"), vec!["p", "q", "s"]);
    assert_eq!(texts("file:///root/b.scala"), vec!["r"]);
}

#[test]
fn the_least_uri_that_does_not_resolve_is_reported() {
    let plan = WorkspaceEditPlan {
        edits: vec![
            ("a.scala".to_string(), Vec::new()),
            ("b.scala".to_string(), Vec::new()),
            ("c.scala".to_string(), Vec::new()),
        ],
        occurrence_count: 0,
    };
    let err = workspace_edit(&plan, |sdb: &str| {
        if sdb == "a.scala" {
            Some("file:///a".to_string())
        } else {
            None
        }
    })
    .err()
    .unwrap();
    assert!(matches!(err, LsError::NotIndexed { uri } if uri == "b.scala"));
}
