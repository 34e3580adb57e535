use ls_server::json::{self, Json};
use ls_server::pc_abi::{
    Command, CompletionApplyKind, CompletionEdit, CompletionItem, CompletionItemDefaults,
    CompletionList, Documentation, EditRange, Hover, HoverContents, HoverResult,
    InsertReplaceEdit, LabelDetails, MarkedStringItem, MarkupContent, ParameterInfo,
    ParameterLabel, Rng, SignatureHelp, SignatureInfo, TextEdit,
};
use ls_server::pc_convert::{
    completion_item, completion_list, empty_completions, hover_result, opaque_json,
    signature_help,
};
use serde_json::Value;

fn value_of(json: &Json) -> Value {
    serde_json::from_slice(&json::encode(json)).unwrap()
}

fn value(text: &str) -> Value {
    serde_json::from_str(text).unwrap()
}

fn rng(sl: u32, sc: u32, el: u32, ec: u32) -> Rng {
    Rng {
        start_line: sl,
        start_character: sc,
        end_line: el,
        end_character: ec,
    }
}

fn minimal(label: &str) -> CompletionItem {
    CompletionItem {
        label: label.to_string(),
        label_details: None,
        kind: None,
        tags: None,
        detail: None,
        documentation: None,
        deprecated: None,
        preselect: None,
        sort_text: None,
        filter_text: None,
        insert_text: None,
        insert_text_format: None,
        insert_text_mode: None,
        text_edit: None,
        text_edit_text: None,
        additional_text_edits: None,
        commit_characters: None,
        command: None,
        data: None,
    }
}

#[test]
fn a_minimal_completion_list_omits_every_absent_field() {
    let list = CompletionList {
        is_incomplete: true,
        item_defaults: None,
        apply_kind: None,
        items: vec![minimal("foo")],
    };
    assert_eq!(
        value_of(&completion_list(&list)),
        value(
            r#"{
                "isIncomplete": true,
                "items": [ { "label": "foo" } ]
            }"#
        )
    );
}

#[test]
fn a_rich_completion_item_renders_every_field_with_its_lsp_name() {
    let item = CompletionItem {
        label: "map".to_string(),
        label_details: Some(LabelDetails {
            detail: Some("[B]".to_string()),
            description: Some("List[B]".to_string()),
        }),
        kind: Some(2),
        tags: Some(vec![1]),
        detail: Some("def map".to_string()),
        documentation: Some(Documentation::Markup(MarkupContent {
            kind: "markdown".to_string(),
            value: "**doc**".to_string(),
        })),
        deprecated: Some(false),
        preselect: Some(true),
        sort_text: Some("00".to_string()),
        filter_text: Some("map".to_string()),
        insert_text: None,
        insert_text_format: Some(2),
        insert_text_mode: Some(1),
        text_edit: Some(CompletionEdit::InsertReplace(InsertReplaceEdit {
            new_text: "map($0)".to_string(),
            insert: rng(1, 2, 1, 2),
            replace: rng(1, 2, 1, 5),
        })),
        text_edit_text: None,
        additional_text_edits: Some(vec![TextEdit {
            range: rng(0, 0, 0, 0),
            new_text: "import scala.collection\n".to_string(),
        }]),
        commit_characters: Some(vec![".".to_string()]),
        command: Some(Command {
            title: "trigger".to_string(),
            tooltip: None,
            command: "editor.action.triggerSuggest".to_string(),
            arguments: Some(br#"[{"uri":"x"}]"#.to_vec()),
        }),
        data: Some(br#"{"symbol":"scala/Predef.map()."}"#.to_vec()),
    };
    assert_eq!(
        value_of(&completion_item(&item)),
        value(
            r#"{
                "label": "map",
                "labelDetails": { "detail": "[B]", "description": "List[B]" },
                "kind": 2,
                "tags": [1],
                "detail": "def map",
                "documentation": { "kind": "markdown", "value": "**doc**" },
                "deprecated": false,
                "preselect": true,
                "sortText": "00",
                "filterText": "map",
                "insertTextFormat": 2,
                "insertTextMode": 1,
                "textEdit": {
                    "newText": "map($0)",
                    "insert": { "start": { "line": 1, "character": 2 }, "end": { "line": 1, "character": 2 } },
                    "replace": { "start": { "line": 1, "character": 2 }, "end": { "line": 1, "character": 5 } }
                },
                "additionalTextEdits": [ {
                    "range": { "start": { "line": 0, "character": 0 }, "end": { "line": 0, "character": 0 } },
                    "newText": "import scala.collection\n"
                } ],
                "commitCharacters": ["."],
                "command": {
                    "title": "trigger",
                    "command": "editor.action.triggerSuggest",
                    "arguments": [ { "uri": "x" } ]
                },
                "data": { "symbol": "scala/Predef.map()." }
            }"#
        )
    );
}

#[test]
fn a_plain_completion_edit_renders_as_a_text_edit() {
    let item = CompletionItem {
        documentation: Some(Documentation::Plain("plain".to_string())),
        insert_text: Some("x".to_string()),
        text_edit: Some(CompletionEdit::Plain(TextEdit {
            range: rng(3, 4, 3, 5),
            new_text: "xs".to_string(),
        })),
        text_edit_text: Some("xs".to_string()),
        ..minimal("x")
    };
    let rendered = value_of(&completion_item(&item));
    assert_eq!(rendered["documentation"], "plain");
    assert_eq!(rendered["insertText"], "x");
    assert_eq!(rendered["textEditText"], "xs");
    assert_eq!(
        rendered["textEdit"],
        value(
            r#"{
                "range": { "start": { "line": 3, "character": 4 }, "end": { "line": 3, "character": 5 } },
                "newText": "xs"
            }"#
        )
    );
}

#[test]
fn a_null_hover_is_json_null() {
    assert_eq!(hover_result(&HoverResult(None)), Json::Null);
}

#[test]
fn a_present_hover_renders_contents_and_optional_range() {
    let markup = HoverResult(Some(Hover {
        contents: HoverContents::Markup(MarkupContent {
            kind: "markdown".to_string(),
            value: "T".to_string(),
        }),
        range: Some(rng(1, 0, 1, 4)),
    }));
    assert_eq!(
        value_of(&hover_result(&markup)),
        value(
            r#"{
                "contents": { "kind": "markdown", "value": "T" },
                "range": { "start": { "line": 1, "character": 0 }, "end": { "line": 1, "character": 4 } }
            }"#
        )
    );

    let marked = HoverResult(Some(Hover {
        contents: HoverContents::Marked(vec![
            MarkedStringItem::Plain("plain".to_string()),
            MarkedStringItem::Marked {
                language: "scala".to_string(),
                value: "def f".to_string(),
            },
        ]),
        range: None,
    }));
    assert_eq!(
        value_of(&hover_result(&marked)),
        value(
            r#"{
                "contents": [ "plain", { "language": "scala", "value": "def f" } ]
            }"#
        )
    );
}

#[test]
fn signature_help_renders_labels_docs_and_active_indices() {
    let help = SignatureHelp {
        signatures: vec![SignatureInfo {
            label: "f(a: Int, b: Int)".to_string(),
            documentation: Some(Documentation::Plain("adds".to_string())),
            parameters: Some(vec![
                ParameterInfo {
                    label: ParameterLabel::Str("a: Int".to_string()),
                    documentation: None,
                },
                ParameterInfo {
                    label: ParameterLabel::Offsets { start: 10, end: 16 },
                    documentation: Some(Documentation::Markup(MarkupContent {
                        kind: "plaintext".to_string(),
                        value: "the b".to_string(),
                    })),
                },
            ]),
            active_parameter: Some(0),
        }],
        active_signature: Some(0),
        active_parameter: Some(1),
    };
    assert_eq!(
        value_of(&signature_help(&help)),
        value(
            r#"{
                "signatures": [ {
                    "label": "f(a: Int, b: Int)",
                    "documentation": "adds",
                    "parameters": [
                        { "label": "a: Int" },
                        { "label": [10, 16], "documentation": { "kind": "plaintext", "value": "the b" } }
                    ],
                    "activeParameter": 0
                } ],
                "activeSignature": 0,
                "activeParameter": 1
            }"#
        )
    );
}

#[test]
fn empty_signature_help_is_an_empty_signature_array() {
    let help = SignatureHelp {
        signatures: Vec::new(),
        active_signature: None,
        active_parameter: None,
    };
    assert_eq!(
        value_of(&signature_help(&help)),
        value(r#"{ "signatures": [] }"#)
    );
}

#[test]
fn an_unparseable_opaque_blob_degrades_to_null() {
    assert_eq!(opaque_json(&[0xff, 0x00]), Json::Null);
}

#[test]
fn the_defaults_of_a_list_render_with_their_lsp_names() {
    let list = CompletionList {
        is_incomplete: false,
        item_defaults: Some(CompletionItemDefaults {
            commit_characters: Some(vec![";".to_string()]),
            edit_range: Some(EditRange::InsertReplace {
                insert: rng(0, 0, 0, 1),
                replace: rng(0, 0, 0, 2),
            }),
            insert_text_format: Some(1),
            insert_text_mode: None,
            data: Some(b"[1]".to_vec()),
        }),
        apply_kind: Some(CompletionApplyKind {
            commit_characters: Some(1),
            data: None,
        }),
        items: Vec::new(),
    };
    assert_eq!(
        value_of(&completion_list(&list)),
        value(
            r#"{
                "isIncomplete": false,
                "itemDefaults": {
                    "commitCharacters": [";"],
                    "editRange": {
                        "insert": { "start": { "line": 0, "character": 0 }, "end": { "line": 0, "character": 1 } },
                        "replace": { "start": { "line": 0, "character": 0 }, "end": { "line": 0, "character": 2 } }
                    },
                    "insertTextFormat": 1,
                    "data": [1]
                },
                "applyKind": { "commitCharacters": 1 },
                "items": []
            }"#
        )
    );
    assert_eq!(
        value_of(&empty_completions()),
        value(r#"{ "isIncomplete": false, "items": [] }"#)
    );
}
