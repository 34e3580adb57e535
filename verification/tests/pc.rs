use ls_server::json::{self, Json};
use ls_server::pc::{
    accepted, code_action_reply, completion_reply, definition_locations, definition_reply, hover_reply,
    list_reply, next_to_send, normalize_java_home, pc_def_origin_of, pc_options, prepare_rename_reply, resolve_island_paths,
    resolve_java_home, resolve_reply, signature_help_reply, DispatchGate, Forward,
    IslandPcService, Outcome, PcCompilerPluginStatus, PcDefOrigin, PcDisabledPlugin, PcLocation,
    PcPluginStatusReport, PcRequest, PcServicePluginStatus, PcSpan,
};
use ls_server::pc_abi::{
    AutoImport, CodeActionResult, FoldingRange, InlayHint, InlayLabelPart, PcDiagnostic, Pos,
    SemanticNode, TextEdit, CompilerPlugin, CompletionItem, CompletionList, DefinitionResult, DisabledPlugin, HoverResult,
    Location, PluginStatus, Rng, ServicePlugin, SignatureHelp, TargetConfig, ORIGIN_PLUGIN,
    ORIGIN_SYNTHETIC, ORIGIN_WORKSPACE,
};
use ls_server::pc_convert::empty_completions;

fn no_file(_: &str) -> bool {
    false
}

#[test]
fn island_paths_resolve_java_home_from_the_environment() {
    let (libjvm, jar) =
        resolve_island_paths(None, None, Some("/jdk"), Some("/a.jar"), &no_file).unwrap();
    assert_eq!(libjvm, "/jdk/lib/server/libjvm.so");
    assert_eq!(jar, "/a.jar");
}

#[test]
fn island_paths_prefer_the_exact_ls_libjvm_override_over_java_home() {
    let (libjvm, _) = resolve_island_paths(
        None,
        Some("/custom/libjvm.so"),
        Some("/jdk"),
        Some("/a.jar"),
        &no_file,
    )
    .unwrap();
    assert_eq!(libjvm, "/custom/libjvm.so");
}

#[test]
fn island_paths_prefer_the_workspace_config_over_every_env_tier() {
    let (libjvm, _) = resolve_island_paths(
        Some(r#"{ "javaHome": "/config/jdk" }"#),
        Some("/custom/libjvm.so"),
        Some("/jdk"),
        Some("/a.jar"),
        &no_file,
    )
    .unwrap();
    assert_eq!(libjvm, "/config/jdk/lib/server/libjvm.so");
}

#[test]
fn island_paths_normalize_a_nixpkgs_package_root_java_home() {
    let (libjvm, _) =
        resolve_island_paths(None, None, Some("/jdk"), Some("/a.jar"), &|path: &str| {
            path == "/jdk/lib/openjdk/release"
        })
        .unwrap();
    assert_eq!(libjvm, "/jdk/lib/openjdk/lib/server/libjvm.so");
}

#[test]
fn island_paths_ignore_an_unparseable_workspace_config() {
    let (libjvm, _) = resolve_island_paths(
        Some("{ not json"),
        None,
        Some("/jdk"),
        Some("/a.jar"),
        &no_file,
    )
    .unwrap();
    assert_eq!(libjvm, "/jdk/lib/server/libjvm.so");
}

#[test]
fn island_paths_without_any_java_home_tier_are_a_typed_error() {
    let err = resolve_island_paths(None, None, None, Some("/a.jar"), &no_file).unwrap_err();
    assert!(err.contains("javaHome"), "{err}");
    assert!(err.contains("JAVA_HOME"), "{err}");
}

#[test]
fn island_paths_without_the_agent_jar_are_a_typed_error() {
    let err = resolve_island_paths(None, None, Some("/jdk"), None, &no_file).unwrap_err();
    assert!(err.contains("PC_HOST_AGENT_JAR"), "{err}");
}

#[test]
fn a_java_home_is_the_directory_three_above_the_jvm() {
    assert_eq!(
        resolve_java_home(None, Some("/jdk/lib/server/libjvm.so"), Some("/other"), &no_file),
        Some("/jdk".to_string())
    );
    assert_eq!(resolve_java_home(None, Some("libjvm.so"), None, &no_file), None);
    assert_eq!(resolve_java_home(None, None, None, &no_file), None);
}

#[test]
fn a_home_with_a_release_file_stays() {
    assert_eq!(normalize_java_home("/jdk".to_string(), &|_: &str| true), "/jdk");
}

#[test]
fn pc_options_strips_semanticdb_flags_in_every_form() {
    let options = vec![
        "-deprecation".to_string(),
        "-Xsemanticdb".to_string(),
        "-Ysemanticdb".to_string(),
        "-semanticdb-target".to_string(),
        "/out/meta".to_string(),
        "-sourceroot".to_string(),
        "/ws".to_string(),
        "-semanticdb-target:/out/meta2".to_string(),
        "-sourceroot:/ws2".to_string(),
        "-feature".to_string(),
    ];
    assert_eq!(
        pc_options(&options),
        vec!["-deprecation".to_string(), "-feature".to_string()]
    );
}

#[test]
fn pc_options_keeps_a_two_token_flag_with_no_value_token() {
    let options = vec!["-deprecation".to_string(), "-sourceroot".to_string()];
    assert_eq!(pc_options(&options), options);
}

#[test]
fn pc_options_is_identity_without_semanticdb_flags() {
    let options = vec!["-deprecation".to_string(), "-explain".to_string()];
    assert_eq!(pc_options(&options), options);
}

fn target_config(id: &str) -> TargetConfig {
    TargetConfig {
        bsp_id: id.to_string(),
        scala_version: "3".to_string(),
        classpath: Vec::new(),
        scalac_options: Vec::new(),
        source_dirs: Vec::new(),
    }
}

/// Sends requests to an island until it is done, and gives their outcomes.
fn driven(requests: &[PcRequest], island: impl Fn(&PcRequest) -> Outcome) -> Vec<Outcome> {
    let mut outcomes = Vec::new();
    while let Some(next) = next_to_send(requests, &outcomes) {
        outcomes.push(island(&requests[next]));
    }
    outcomes
}

/// A service whose island runs.
fn booted(target: &str) -> IslandPcService {
    let mut pc = IslandPcService::new("/ws".to_string(), vec![target_config(target)]);
    let outcomes = driven(&pc.replay(), |_| Outcome::Done);
    assert!(pc.install_driver(&outcomes));
    pc
}

/// Takes a notification to an island that answers it with the outcome.
fn answer(pc: &mut IslandPcService, forward: Forward, outcome: Outcome) -> bool {
    match forward {
        Forward::Send(request) => {
            pc.settle(&request, &outcome);
            true
        }
        _ => false,
    }
}

#[test]
fn document_notifications_mirror_without_booting_the_island() {
    let mut pc = IslandPcService::new("/ws".to_string(), vec![target_config("t")]);
    let a = "file:///ws/a.scala";

    assert!(!pc.is_open(a));
    assert_eq!(pc.did_open("t", a, "v1"), Forward::Mirrored);
    assert!(pc.is_open(a));
    assert_eq!(pc.did_change(a, "v2"), Forward::Mirrored);
    assert_eq!(pc.buffer_text(a).as_deref(), Some("v2"));
    pc.did_close(a);
    assert!(!pc.is_open(a));

    pc.did_change("file:///ws/ghost.scala", "x");
    pc.did_close("file:///ws/ghost.scala");
    assert!(!pc.is_open("file:///ws/ghost.scala"));

    assert!(
        !pc.booted(),
        "a document notification must never boot the embedded JVM island"
    );
}

#[test]
fn reconfigure_targets_updates_the_gate_and_registers_into_a_booted_island() {
    let mut cold = IslandPcService::new("/ws".to_string(), vec![target_config("old")]);
    let none = cold.reconfigure_targets(vec![target_config("new")]);
    assert!(none.is_empty());
    assert!(cold.is_registered("new"));
    assert!(!cold.is_registered("old"));
    assert!(!cold.booted(), "reconfigure must not boot the island");

    let mut booted_pc = booted("old");
    let requests = booted_pc.reconfigure_targets(vec![target_config("new"), target_config("old")]);
    booted_pc.targets_registered(&[Outcome::Done, Outcome::Done]);
    assert!(booted_pc.is_registered("new"));
    assert_eq!(requests.len(), 2, "both targets re-registered into the booted island");
    assert_eq!(booted_pc.boot_error(), None);
}

#[test]
fn a_refused_registration_is_recorded_and_the_gate_stays() {
    let mut pc = booted("old");
    let requests = pc.reconfigure_targets(vec![target_config("new"), target_config("other")]);
    let outcomes = driven(&requests, |_| Outcome::Backend(-1));
    assert_eq!(outcomes.len(), 1);
    pc.targets_registered(&outcomes);
    assert_eq!(
        pc.boot_error().as_deref(),
        Some("PC target 'new' re-registration rejected by the island")
    );
    assert!(pc.is_registered("new"));
    assert_eq!(pc.registered_targets(), vec!["new", "other"]);
}

#[test]
fn did_open_for_an_unregistered_target_is_ignored() {
    let mut pc = IslandPcService::new("/ws".to_string(), vec![target_config("known")]);
    assert_eq!(pc.did_open("unknown", "file:///ws/a.scala", "v1"), Forward::Ignored);
    assert!(!pc.is_open("file:///ws/a.scala"));
    assert!(!pc.booted());
}

#[test]
fn failed_live_did_open_leaves_the_buffer_unmirrored() {
    let mut pc = booted("t");
    let a = "file:///ws/a.scala";
    let forward = pc.did_open("t", a, "v1");
    assert!(
        answer(&mut pc, forward, Outcome::Backend(-7)),
        "the island must be forwarded the open first"
    );
    assert!(!pc.is_open(a), "a rejected didOpen must not mark the buffer open");
}

#[test]
fn accepted_and_timeout_live_did_open_mirror_the_buffer() {
    let mut pc = booted("t");
    let forward = pc.did_open("t", "file:///ws/ok.scala", "v1");
    answer(&mut pc, forward, Outcome::Done);
    assert_eq!(pc.buffer_text("file:///ws/ok.scala").as_deref(), Some("v1"));

    let mut pc = booted("t");
    let forward = pc.did_open("t", "file:///ws/recovered.scala", "v1");
    answer(&mut pc, forward, Outcome::RequestTimeout);
    assert!(pc.is_open("file:///ws/recovered.scala"));
    assert!(accepted(&Outcome::Unavailable));
    assert!(!accepted(&Outcome::Backend(0)));
}

#[test]
fn failed_live_did_change_preserves_the_replayable_text() {
    let mut pc = booted("t");
    let a = "file:///ws/a.scala";
    let forward = pc.did_open("t", a, "v1");
    answer(&mut pc, forward, Outcome::Done);
    let forward = pc.did_change(a, "v2");
    answer(&mut pc, forward, Outcome::Backend(-3));
    assert_eq!(
        pc.buffer_text(a).as_deref(),
        Some("v1"),
        "a rejected didChange must keep the last accepted text"
    );
}

#[test]
fn failed_live_did_close_keeps_the_buffer() {
    let mut pc = booted("t");
    let a = "file:///ws/a.scala";
    let forward = pc.did_open("t", a, "v1");
    answer(&mut pc, forward, Outcome::Done);
    let forward = pc.did_close(a);
    answer(&mut pc, forward, Outcome::Backend(-9));
    assert!(
        pc.is_open(a),
        "a rejected didClose must keep the buffer to avoid a replay divergence"
    );
}

#[test]
fn failed_boot_replay_does_not_install_a_driver() {
    let mut pc = IslandPcService::new("/ws".to_string(), vec![target_config("t")]);
    pc.did_open("t", "file:///ws/a.scala", "v1");
    let outcomes = driven(&pc.replay(), |request| match request {
        PcRequest::DidOpen { .. } => Outcome::Backend(-4),
        _ => Outcome::Done,
    });
    let installed = pc.install_driver(&outcomes);
    assert!(!installed, "a rejected boot replay must not install a driver");
    assert!(!pc.booted(), "no driver is installed after a failed replay");
    assert_eq!(
        pc.boot_error().as_deref(),
        Some("PC buffer 'file:///ws/a.scala' replay rejected by the island"),
        "the boot failure is recorded"
    );
    assert_eq!(pc.dispatch(), DispatchGate::Refuse);
}

#[test]
fn a_refused_target_ends_the_replay() {
    let mut pc = IslandPcService::new("/ws".to_string(), vec![target_config("t"), target_config("u")]);
    let outcomes = driven(&pc.replay(), |_| Outcome::Backend(1));
    assert_eq!(outcomes, vec![Outcome::Backend(1)], "nothing is sent behind a refusal");
    assert!(!pc.install_driver(&outcomes));
    assert_eq!(
        pc.boot_error().as_deref(),
        Some("PC target 't' registration rejected by the island")
    );
}

#[test]
fn clean_boot_replay_installs_the_driver() {
    let mut pc = IslandPcService::new("/ws".to_string(), vec![target_config("t")]);
    pc.did_open("t", "file:///ws/b.scala", "v1");
    pc.did_open("t", "file:///ws/a.scala", "v2");
    let replay = pc.replay();
    assert_eq!(replay[0], PcRequest::RegisterTarget { config: target_config("t") });
    assert_eq!(
        replay[1],
        PcRequest::DidOpen {
            target_id: "t".to_string(),
            uri: "file:///ws/a.scala".to_string(),
            text: "v2".to_string(),
        }
    );
    assert_eq!(pc.dispatch(), DispatchGate::Boot);
    assert!(pc.install_driver(&[Outcome::Done, Outcome::Done, Outcome::RequestTimeout]));
    assert!(pc.booted());
    assert_eq!(pc.dispatch(), DispatchGate::Ask);
}

#[test]
fn a_boot_needs_its_settings_and_is_tried_once() {
    let mut pc = IslandPcService::new("/ws".to_string(), Vec::new());
    let plan = pc
        .boot(None, None, Some("/jdk"), Some("/a.jar"), Some("wedge"), &no_file)
        .unwrap();
    assert_eq!(plan.libjvm, "/jdk/lib/server/libjvm.so");
    assert_eq!(plan.workspace_root, "/ws");
    assert_eq!(plan.jvm_options, vec!["-Dls.pc.host.testFault=wedge"]);
    assert_eq!(plan.request_deadline, 20);
    let plan = pc.boot(None, None, Some("/jdk"), Some("/a.jar"), Some(""), &no_file).unwrap();
    assert!(plan.jvm_options.is_empty());
    assert_eq!(plan.request_deadline, 120);
    assert_eq!(plan.rendezvous_timeout, 60);
    assert_eq!(plan.max_abandoned_generations, 4);
    assert_eq!(plan.cancel_grace, 500);

    assert!(pc.boot(None, None, None, Some("/a.jar"), None, &no_file).is_none());
    assert!(pc.boot_error().unwrap().contains("javaHome"));
    assert!(pc.boot(None, None, Some("/jdk"), Some("/a.jar"), None, &no_file).is_none());
}

fn found(uri: &str, origin: u32) -> DefinitionResult {
    DefinitionResult {
        symbol: "foo".to_string(),
        locations: vec![Location {
            uri: uri.to_string(),
            range: Rng { start_line: 1, start_character: 2, end_line: 1, end_character: 5 },
            origin,
        }],
    }
}

#[test]
fn a_booted_query_dispatches_through_the_driver_and_decodes_locations() {
    let a = "file:///ws/a.scala";
    assert_eq!(
        definition_locations(Some(found(a, ORIGIN_WORKSPACE))),
        vec![PcLocation {
            uri: a.to_string(),
            start_line: 1,
            start_character: 2,
            end_line: 1,
            end_character: 5,
        }]
    );
    assert!(definition_locations(None).is_empty());
}

#[test]
fn a_definition_keeps_its_symbol_and_the_origin_of_each_location() {
    let definition = definition_reply(Some(&found("file:///a", ORIGIN_PLUGIN)));
    assert_eq!(definition.symbol, "foo");
    assert_eq!(definition.locations[0].origin, PcDefOrigin::Plugin);
    assert_eq!(
        definition.locations[0].span,
        PcSpan { start_line: 1, start_character: 2, end_line: 1, end_character: 5 }
    );
    assert_eq!(definition_reply(None).symbol, "");
    assert_eq!(pc_def_origin_of(ORIGIN_WORKSPACE), PcDefOrigin::Workspace);
    assert_eq!(pc_def_origin_of(ORIGIN_SYNTHETIC), PcDefOrigin::Synthetic);
    assert_eq!(pc_def_origin_of(77), PcDefOrigin::Synthetic);
}

#[test]
fn a_rename_span_is_there_only_where_the_compiler_gives_one() {
    let range = Rng { start_line: 0, start_character: 1, end_line: 0, end_character: 3 };
    assert_eq!(
        prepare_rename_reply(Some(Some(range))),
        Some(PcSpan { start_line: 0, start_character: 1, end_line: 0, end_character: 3 })
    );
    assert_eq!(prepare_rename_reply(Some(None)), None);
    assert_eq!(prepare_rename_reply(None), None);
}

fn item(detail: Option<&str>) -> CompletionItem {
    CompletionItem {
        label: "foo".to_string(),
        label_details: None,
        kind: Some(2),
        tags: None,
        detail: detail.map(str::to_string),
        documentation: None,
        deprecated: None,
        preselect: None,
        sort_text: None,
        filter_text: None,
        insert_text: None,
        insert_text_format: None,
        insert_text_mode: None,
        text_edit: None,
        text_edit_text: None,
        additional_text_edits: None,
        commit_characters: None,
        command: None,
        data: None,
    }
}

fn value_of(json: &Json) -> serde_json::Value {
    serde_json::from_slice(&json::encode(json)).unwrap()
}

#[test]
fn a_booted_completion_decodes_the_list_and_degrades_to_empty() {
    let list = CompletionList {
        is_incomplete: false,
        item_defaults: None,
        apply_kind: None,
        items: vec![item(None)],
    };
    let value = value_of(&completion_reply(Some(&list)));
    assert_eq!(value["isIncomplete"], false);
    assert_eq!(value["items"][0]["label"], "foo");
    assert_eq!(value["items"][0]["kind"], 2);
    assert_eq!(completion_reply(None), empty_completions());
}

#[test]
fn a_query_without_a_reply_is_null() {
    assert_eq!(hover_reply(None), Json::Null);
    assert_eq!(hover_reply(Some(&HoverResult(None))), Json::Null);
    assert_eq!(signature_help_reply(None), Json::Null);
    let help = SignatureHelp {
        signatures: Vec::new(),
        active_signature: None,
        active_parameter: None,
    };
    assert!(value_of(&signature_help_reply(Some(&help)))["signatures"].is_array());
}

#[test]
fn a_payload_query_on_an_unbootable_service_degrades_to_empty() {
    let mut pc = IslandPcService::new("/ws".to_string(), vec![target_config("t")]);
    pc.boot_failed("no javaHome".to_string());
    assert_eq!(pc.dispatch(), DispatchGate::Refuse);
    assert!(!pc.booted());
}

#[test]
fn config_change_clears_a_latched_boot_error_only_while_cold() {
    let mut cold = IslandPcService::new("/ws".to_string(), vec![target_config("t")]);
    cold.boot_failed("bad javaHome".to_string());
    assert!(!cold.on_config_changed());
    assert!(
        cold.boot_error().is_none(),
        "a cold island's latched boot error must clear on a config change"
    );
    assert!(!cold.booted(), "a config change must not boot the island");

    let mut booted_pc = booted("t");
    booted_pc.boot_failed("re-registration rejected".to_string());
    assert!(booted_pc.on_config_changed());
    assert!(
        booted_pc.boot_error().is_some(),
        "a booted island must ignore a config change"
    );
}

#[test]
fn is_registered_reflects_the_registered_targets() {
    let pc = booted("t");
    assert!(pc.is_registered("t"));
    assert!(!pc.is_registered("other"));
}

#[test]
fn a_booted_resolve_dispatches_and_renders_the_enriched_item() {
    let text = r#"{ "label": "foo", "data": { "symbol": "s" } }"#;
    let given = || json::decode(text.as_bytes()).unwrap();
    let out = value_of(&resolve_reply(given(), Some(&item(Some("def foo: Int")))));
    assert_eq!(out["label"], "foo");
    assert_eq!(out["detail"], "def foo: Int");
    assert_eq!(resolve_reply(given(), None), given());
}

fn status() -> PluginStatus {
    PluginStatus {
        compiler_plugins: vec![CompilerPlugin {
            jars: vec!["/plugins/zaozi.jar".to_string()],
            options: vec!["-P:zaozi:on".to_string()],
            loaded: true,
            detail: "ok".to_string(),
        }],
        service_plugins: vec![ServicePlugin {
            id: "zaozi.nav".to_string(),
            source: "workspace pc-plugins.json".to_string(),
            enabled: true,
            self_test_ok: false,
            self_test_detail: "self-test failed: boom".to_string(),
        }],
        disabled: vec![DisabledPlugin {
            id: "old.plugin".to_string(),
            reason: "disabled by config".to_string(),
        }],
    }
}

#[test]
fn plugin_status_on_a_cold_service_is_none_and_never_boots() {
    let pc = IslandPcService::new("/ws".to_string(), vec![target_config("t")]);
    assert_eq!(pc.plugin_status(None), None);
    assert_eq!(pc.plugin_status(Some(&status())), None);
    assert!(!pc.booted(), "a plugin-status inspection must never boot the island");
}

#[test]
fn a_booted_plugin_status_decodes_the_seam_report() {
    let pc = booted("t");
    assert_eq!(
        pc.plugin_status(Some(&status())),
        Some(PcPluginStatusReport {
            compiler_plugins: vec![PcCompilerPluginStatus {
                jars: vec!["/plugins/zaozi.jar".to_string()],
                options: vec!["-P:zaozi:on".to_string()],
                loaded: true,
                detail: "ok".to_string(),
            }],
            service_plugins: vec![PcServicePluginStatus {
                id: "zaozi.nav".to_string(),
                source: "workspace pc-plugins.json".to_string(),
                enabled: true,
                self_test_ok: false,
                self_test_detail: "self-test failed: boom".to_string(),
            }],
            disabled: vec![PcDisabledPlugin {
                id: "old.plugin".to_string(),
                reason: "disabled by config".to_string(),
            }],
        })
    );
}

#[test]
fn a_failed_plugin_status_degrades_to_none() {
    assert_eq!(booted("t").plugin_status(None), None);
}

#[test]
fn booted_payload_queries_decode_their_carriers_and_not_yet_degrades_to_empty() {
    let a = "file:///ws/a.scala";
    let rng = Rng { start_line: 0, start_character: 0, end_line: 9, end_character: 0 };
    let pos = Pos { line: 1, character: 2 };

    let hints = || {
        vec![InlayHint {
            position: pos,
            label_parts: vec![InlayLabelPart {
                text: ": Int".to_string(),
                location: Some((a.to_string(), rng)),
                tooltip: None,
            }],
            kind: 1,
            padding_left: true,
            padding_right: false,
            text_edits: None,
            data: Some(vec![1, 2]),
        }]
    };
    assert_eq!(list_reply(Some(hints())), hints());

    let nodes = vec![SemanticNode { start: 0, end: 6, token_type: 3, token_modifier: 1 }];
    assert_eq!(list_reply(Some(nodes.clone())), nodes);

    let chains = vec![vec![rng], vec![]];
    assert_eq!(list_reply(Some(chains.clone())), chains);

    let action = || CodeActionResult {
        edits: vec![TextEdit { range: rng, new_text: ": Int".to_string() }],
        refusal: None,
    };
    assert_eq!(code_action_reply(Some(action())), action());

    let refused = CodeActionResult {
        edits: vec![],
        refusal: Some("Cannot extract selection".to_string()),
    };
    assert_eq!(
        code_action_reply(Some(refused)).refusal.as_deref(),
        Some("Cannot extract selection")
    );

    let imports = || {
        vec![AutoImport {
            package_name: "scala.concurrent".to_string(),
            edits: vec![],
            symbol: None,
        }]
    };
    assert_eq!(list_reply(Some(imports())), imports());

    let diagnostics = || {
        vec![PcDiagnostic {
            range: rng,
            severity: 1,
            code: "E007".to_string(),
            message: "not found".to_string(),
        }]
    };
    assert_eq!(list_reply(Some(diagnostics())), diagnostics());

    let ranges = vec![FoldingRange { range: rng, kind: 2 }];
    assert_eq!(list_reply(Some(ranges.clone())), ranges);

    assert!(list_reply::<InlayHint>(None).is_empty());
    assert!(list_reply::<SemanticNode>(None).is_empty());
    assert!(list_reply::<Vec<Rng>>(None).is_empty());
    let none = code_action_reply(None);
    assert!(none.edits.is_empty());
    assert_eq!(none.refusal, None);
    assert!(list_reply::<AutoImport>(None).is_empty());
    assert!(list_reply::<PcDiagnostic>(None).is_empty());
    assert!(list_reply::<FoldingRange>(None).is_empty());
}

#[test]
fn a_row_of_requests_ends_behind_a_refusal() {
    let row = vec![
        PcRequest::DidClose { uri: "a".to_string() },
        PcRequest::DidClose { uri: "b".to_string() },
        PcRequest::DidClose { uri: "c".to_string() },
    ];
    assert_eq!(next_to_send(&row, &[]), Some(0));
    assert_eq!(next_to_send(&row, &[Outcome::Done]), Some(1));
    assert_eq!(next_to_send(&row, &[Outcome::Done, Outcome::RequestTimeout]), Some(2));
    assert_eq!(next_to_send(&row, &[Outcome::Done, Outcome::Backend(0)]), None);
    assert_eq!(next_to_send(&row, &[Outcome::Done, Outcome::Done, Outcome::Unavailable]), None);
    assert_eq!(next_to_send(&[], &[]), None);
}

#[test]
fn a_configured_nix_package_root_boots_the_jvm_that_is_reported() {
    let config = Some(r#"{"javaHome": "/nix/jdk"}"#);
    let nested = |path: &str| path == "/nix/jdk/lib/openjdk/release";
    for (libjvm, home) in [(None, None), (Some("/other/libjvm.so"), Some("/other"))] {
        let reported = resolve_java_home(config, libjvm, home, &nested).unwrap();
        assert_eq!(reported, "/nix/jdk/lib/openjdk");
        let (booted, _) =
            resolve_island_paths(config, libjvm, home, Some("/a.jar"), &nested).unwrap();
        assert_eq!(booted, "/nix/jdk/lib/openjdk/lib/server/libjvm.so");
        assert_eq!(booted, format!("{reported}/lib/server/libjvm.so"));
    }
}

#[test]
fn options_that_went_through_once_stay() {
    let options: Vec<String> = [
        "-Xsemanticdb", "-sourceroot", "-semanticdb-target", "-x", "-sourceroot:/ws", "-semanticdb-target",
    ]
    .iter()
    .map(|option| option.to_string())
    .collect();
    let once = pc_options(&options);
    assert_eq!(once, vec!["-x", "-semanticdb-target"]);
    assert_eq!(pc_options(&once), once);
}
