use ls_server::json::{self, Json};
use ls_server::pc_abi::{FoldingRange, InlayHint, InlayLabelPart, Pos, Rng, TextEdit};
use ls_server::pc_lsp::{
    abi_pos, abi_rng, folding_range, inlay_hint, lsp_position, lsp_range, selection_chain,
};
use ls_server::protocol::Position;
use serde_json::Value;

fn value_of(json: &Json) -> Value {
    serde_json::from_slice(&json::encode(json)).unwrap()
}

fn value(text: &str) -> Value {
    serde_json::from_str(text).unwrap()
}

fn rng(sl: u32, sc: u32, el: u32, ec: u32) -> Rng {
    Rng {
        start_line: sl,
        start_character: sc,
        end_line: el,
        end_character: ec,
    }
}

fn bare(kind: i32, data: Option<&[u8]>, parts: Vec<InlayLabelPart>) -> InlayHint {
    InlayHint {
        position: Pos {
            line: 0,
            character: 0,
        },
        label_parts: parts,
        kind,
        padding_left: false,
        padding_right: false,
        text_edits: None,
        data: data.map(|d| d.to_vec()),
    }
}

#[test]
fn inlay_hint_maps_the_full_carrier_to_the_lsp_shape() {
    let hint = InlayHint {
        position: Pos {
            line: 1,
            character: 9,
        },
        label_parts: vec![InlayLabelPart {
            text: ": Int".to_string(),
            location: Some(("file:///ws/A.scala".to_string(), rng(0, 2, 0, 5))),
            tooltip: Some("inferred".to_string()),
        }],
        kind: 1,
        padding_left: true,
        padding_right: false,
        text_edits: Some(vec![TextEdit {
            range: rng(1, 9, 1, 9),
            new_text: ": Int".to_string(),
        }]),
        data: Some(b"{\"symbol\":\"scala/Int#\"}".to_vec()),
    };
    assert_eq!(
        value_of(&inlay_hint(&hint)),
        value(
            r#"{
                "position": { "line": 1, "character": 9 },
                "label": [{
                    "value": ": Int",
                    "tooltip": "inferred",
                    "location": {
                        "uri": "file:///ws/A.scala",
                        "range": { "start": { "line": 0, "character": 2 }, "end": { "line": 0, "character": 5 } }
                    }
                }],
                "kind": 1,
                "textEdits": [{
                    "range": { "start": { "line": 1, "character": 9 }, "end": { "line": 1, "character": 9 } },
                    "newText": ": Int"
                }],
                "paddingLeft": true,
                "paddingRight": false,
                "data": { "symbol": "scala/Int#" }
            }"#
        )
    );
}

#[test]
fn inlay_hint_omits_no_kind_and_absent_optionals() {
    let mut hint = bare(
        0,
        None,
        vec![InlayLabelPart {
            text: "(using x)".to_string(),
            location: None,
            tooltip: None,
        }],
    );
    hint.position.character = 4;
    let rendered = value_of(&inlay_hint(&hint));
    assert!(rendered.get("kind").is_none(), "{rendered}");
    assert!(rendered.get("textEdits").is_none(), "{rendered}");
    assert!(rendered.get("data").is_none(), "{rendered}");
    assert_eq!(rendered["label"], value(r#"[{ "value": "(using x)" }]"#));
}

#[test]
fn inlay_hint_data_degrades_non_json_bytes_to_a_string() {
    let hint = bare(0, Some(b"fake/Symbol#"), Vec::new());
    assert_eq!(value_of(&inlay_hint(&hint))["data"], "fake/Symbol#");
}

#[test]
fn inlay_hint_data_that_is_no_utf8_gets_replacement_characters() {
    let hint = bare(0, Some(b"a\xff"), Vec::new());
    assert_eq!(value_of(&inlay_hint(&hint))["data"], "a\u{fffd}");
}

#[test]
fn inlay_hint_drops_an_unparseable_label_location() {
    let hint = bare(
        2,
        None,
        vec![InlayLabelPart {
            text: "T".to_string(),
            location: Some(("not a uri".to_string(), rng(0, 0, 0, 1))),
            tooltip: None,
        }],
    );
    let rendered = value_of(&inlay_hint(&hint));
    assert_eq!(rendered["kind"], 2);
    assert_eq!(rendered["label"], value(r#"[{ "value": "T" }]"#));
}

#[test]
fn selection_chain_links_innermost_first_into_parents() {
    let chain = [rng(1, 10, 1, 11), rng(1, 2, 1, 13), rng(0, 0, 2, 1)];
    let queried = Position {
        line: 1,
        character: 10,
    };
    assert_eq!(
        value_of(&selection_chain(&chain, &queried).to_json()),
        value(
            r#"{
                "range": { "start": { "line": 1, "character": 10 }, "end": { "line": 1, "character": 11 } },
                "parent": {
                    "range": { "start": { "line": 1, "character": 2 }, "end": { "line": 1, "character": 13 } },
                    "parent": {
                        "range": { "start": { "line": 0, "character": 0 }, "end": { "line": 2, "character": 1 } }
                    }
                }
            }"#
        )
    );
}

#[test]
fn selection_chain_degrades_an_empty_chain_to_the_queried_position() {
    let queried = Position {
        line: 3,
        character: 7,
    };
    assert_eq!(
        value_of(&selection_chain(&[], &queried).to_json()),
        value(
            r#"{
                "range": { "start": { "line": 3, "character": 7 }, "end": { "line": 3, "character": 7 } }
            }"#
        )
    );
}

#[test]
fn folding_range_maps_each_kind_ordinal() {
    let of = |kind: i32| {
        value_of(
            &folding_range(&FoldingRange {
                range: rng(0, 5, 3, 1),
                kind,
            })
            .to_json(),
        )
    };
    assert_eq!(
        of(2),
        value(
            r#"{
                "startLine": 0,
                "startCharacter": 5,
                "endLine": 3,
                "endCharacter": 1,
                "kind": "imports"
            }"#
        )
    );
    assert_eq!(of(1)["kind"], "comment");
    assert_eq!(of(3)["kind"], "region");
    assert!(of(0).get("kind").is_none());
    assert!(of(99).get("kind").is_none());
}

#[test]
fn ranges_and_positions_go_over_and_come_back() {
    let range = rng(1, 2, 3, 4);
    assert_eq!(abi_rng(&lsp_range(&range)), range);
    let pos = Pos {
        line: 5,
        character: 6,
    };
    assert_eq!(abi_pos(&lsp_position(&pos)), pos);
}
