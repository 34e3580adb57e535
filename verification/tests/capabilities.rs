use ls_server::capabilities::{
    code_action_options, commands, initialize_result, semantic_tokens_options, watch_globs,
    SemanticTokensLegend,
};
use ls_server::json;

fn legend() -> SemanticTokensLegend {
    SemanticTokensLegend {
        token_types: vec!["namespace".to_string(), "method".to_string()],
        token_modifiers: vec!["declaration".to_string()],
    }
}

fn initialize_json() -> String {
    String::from_utf8(json::encode(&initialize_result(legend()).to_json())).unwrap()
}

fn initialize_value() -> serde_json::Value {
    serde_json::from_str(&initialize_json()).expect("initialize result is JSON")
}

#[test]
fn advertises_the_core_providers_plus_completion_hover_signature() {
    let json = initialize_json();
    assert!(json.contains("\"workspaceSymbolProvider\":true"), "{json}");
    assert!(json.contains("\"referencesProvider\":true"), "{json}");
    assert!(json.contains("\"renameProvider\":{\"prepareProvider\":true}"), "{json}");
    assert!(json.contains("\"documentHighlightProvider\":true"), "{json}");
    assert!(json.contains("\"documentSymbolProvider\":true"), "{json}");
    assert!(json.contains("\"implementationProvider\":true"), "{json}");
    assert!(json.contains("\"executeCommandProvider\""), "{json}");
    assert!(json.contains("\"completionProvider\""), "{json}");
    assert!(json.contains("\"resolveProvider\":true"), "{json}");
    assert!(json.contains("\"hoverProvider\":true"), "{json}");
    assert!(json.contains("\"signatureHelpProvider\""), "{json}");
    assert!(json.contains("\"definitionProvider\":true"), "{json}");
    assert!(json.contains("\"typeDefinitionProvider\":true"), "{json}");
}

#[test]
fn advertises_the_payload_backed_providers() {
    let json = initialize_json();
    assert!(json.contains("\"inlayHintProvider\":{\"resolveProvider\":false}"), "{json}");
    assert!(json.contains("\"selectionRangeProvider\":true"), "{json}");
    assert!(json.contains("\"foldingRangeProvider\":true"), "{json}");
}

#[test]
fn advertises_code_actions_with_the_four_assembly_kinds_and_no_resolve() {
    let value = initialize_value();
    let provider = &value["capabilities"]["codeActionProvider"];
    let expected: serde_json::Value = serde_json::from_str(
        r#"["quickfix", "refactor.rewrite", "refactor.extract", "refactor.inline"]"#,
    )
    .unwrap();
    assert_eq!(provider["codeActionKinds"], expected, "{provider}");
    assert_eq!(provider["resolveProvider"], serde_json::Value::Bool(false), "{provider}");
}

#[test]
fn code_actions_read_as_the_options_of_the_protocol() {
    let ours: serde_json::Value =
        serde_json::from_slice(&json::encode(&code_action_options().to_json())).unwrap();
    let protocol = lsp_types::CodeActionOptions {
        code_action_kinds: Some(vec![
            lsp_types::CodeActionKind::QUICKFIX,
            lsp_types::CodeActionKind::REFACTOR_REWRITE,
            lsp_types::CodeActionKind::REFACTOR_EXTRACT,
            lsp_types::CodeActionKind::REFACTOR_INLINE,
        ]),
        work_done_progress_options: Default::default(),
        resolve_provider: Some(false),
    };
    assert_eq!(ours, serde_json::to_value(protocol).unwrap());
}

#[test]
fn registers_incremental_text_document_sync() {
    assert!(initialize_json().contains("\"textDocumentSync\":2"));
}

#[test]
fn advertises_the_utf16_position_encoding() {
    assert!(initialize_json().contains("\"positionEncoding\":\"utf-16\""));
}

#[test]
fn lists_exactly_the_advertised_execute_command_commands() {
    let json = initialize_json();
    for command in commands::all() {
        assert!(json.contains(&format!("\"{command}\"")), "{json}");
    }
    assert_eq!(commands::all().len(), 4);
    assert!(json.contains("scala3SemanticLs.pcPluginStatus"), "{json}");
}

#[test]
fn the_watch_globs_are_exactly_the_registered_three() {
    assert_eq!(
        watch_globs::all(),
        [
            "**/*.semanticdb",
            "**/.scala3-bsp-semantic-ls/config.json",
            "**/.bsp/*.json",
        ]
    );
}

#[test]
fn advertises_semantic_tokens_with_the_vendored_legend() {
    let value = initialize_value();
    let provider = &value["capabilities"]["semanticTokensProvider"];
    assert_eq!(provider["full"], serde_json::Value::Bool(true), "{provider}");
    assert_eq!(provider["range"], serde_json::Value::Bool(true), "{provider}");
    let token_types: Vec<&str> = provider["legend"]["tokenTypes"]
        .as_array()
        .expect("tokenTypes array")
        .iter()
        .map(|v| v.as_str().unwrap())
        .collect();
    let token_modifiers: Vec<&str> = provider["legend"]["tokenModifiers"]
        .as_array()
        .expect("tokenModifiers array")
        .iter()
        .map(|v| v.as_str().unwrap())
        .collect();
    assert_eq!(token_types, vec!["namespace", "method"]);
    assert_eq!(token_modifiers, vec!["declaration"]);
}

#[test]
fn semantic_tokens_read_as_the_options_of_the_protocol() {
    let ours: serde_json::Value =
        serde_json::from_slice(&json::encode(&semantic_tokens_options(legend()).to_json()))
            .unwrap();
    let protocol = lsp_types::SemanticTokensOptions {
        work_done_progress_options: Default::default(),
        legend: lsp_types::SemanticTokensLegend {
            token_types: vec![
                lsp_types::SemanticTokenType::new("namespace"),
                lsp_types::SemanticTokenType::new("method"),
            ],
            token_modifiers: vec![lsp_types::SemanticTokenModifier::new("declaration")],
        },
        range: Some(true),
        full: Some(lsp_types::SemanticTokensFullOptions::Bool(true)),
    };
    assert_eq!(ours, serde_json::to_value(protocol).unwrap());
}

#[test]
fn the_initialize_result_names_the_server() {
    let value = initialize_value();
    assert_eq!(value["serverInfo"]["name"], "scala3-bsp-semantic-ls");
    assert_eq!(value["serverInfo"]["version"], "0.1.0");
}
