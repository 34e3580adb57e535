use ls_server::bootstrap::{
    bootstrap_ended, bootstrap_started, bsp_status_name, build, build_services, choose_connection,
    compile_outcome, doctor_targets_of, from_bsp, ingest_completed, invalid_connections,
    locations_result, log_build_message, method_hits_result, model_summary, pc_target_configs,
    ready_model_from_session, reload_build_model, reload_completed, reload_started,
    replay_open_buffers, store_opened, target_change_received, uri_owners, workspace_source_facts, BspCompileOutcome, BspConnection, BspDiscovery,
    BspProjectModel, BspTarget, CompileOutcome, DocFacts, LoadOutcome, Loc, MethodHit, ReadyModel,
    RecoveredIndex, ReloadOutcome, TargetSpec,
};
use ls_server::convert::Span;
use ls_server::documents::DocumentStore;
use ls_server::lifecycle::WorkspaceState;
use ls_server::logging::{Level, LogRecord};
use ls_server::paths::normalize;
use ls_server::pc_abi::ORIGIN_WORKSPACE;

fn target(bsp_id: &str, semanticdb_root: Option<&str>, sourceroot: Option<&str>) -> BspTarget {
    BspTarget {
        bsp_id: bsp_id.to_string(),
        display_name: bsp_id.to_string(),
        scala_version: "3.3.1".to_string(),
        scalac_options: Vec::new(),
        class_directory: format!("/out/{bsp_id}"),
        classpath: Vec::new(),
        semanticdb_root: semanticdb_root.map(str::to_string),
        sourceroot: sourceroot.map(str::to_string),
        sources: Vec::new(),
        direct_deps: Vec::new(),
    }
}

fn model(targets: Vec<BspTarget>) -> BspProjectModel {
    BspProjectModel { targets, uri_to_target: Vec::new() }
}

#[test]
fn from_bsp_maps_indexable_rooted_targets_only() {
    let mut a = target("a", Some("/out/a"), Some("/src"));
    a.direct_deps = vec!["b".to_string()];
    let model = model(vec![
        a,
        target("b", None, Some("/src")),
        target("c", Some("/out/c"), None),
        target("d", Some("/out/d"), Some("/src2")),
    ]);
    let ws = from_bsp(&model, workspace_source_facts);
    let ids: Vec<&str> = ws.targets.iter().map(|t| t.bsp_id.as_str()).collect();
    assert_eq!(ids, vec!["a", "d"]);
    assert_eq!(ws.targets[0].direct_deps, vec!["b".to_string()]);
    assert_eq!(ws.targets[0].scala_version, "3.3.1");
    assert_eq!(ws.targets[0].sourceroot, "/src");
    assert_eq!(ws.targets[0].semanticdb_root, "/out/a");
}

#[test]
fn from_bsp_routes_doc_facts_by_target_and_uri() {
    let model = model(vec![target("a", Some("/out/a"), Some("/src"))]);
    let ws = from_bsp(&model, |bsp_id: &str, uri: &str| {
        if bsp_id == "a" && uri == "gen.scala" {
            DocFacts { generated: true, readonly: false, is_dependency_source: false }
        } else {
            DocFacts::workspace_source()
        }
    });
    assert!(ws.facts(&ws.targets[0], "gen.scala").generated);
    assert!(!ws.facts(&ws.targets[0], "other.scala").generated);
}

#[test]
fn pc_target_configs_append_the_class_directory_deduped_with_empty_source_dirs() {
    let mut t = target("a", Some("/out/a"), Some("/src"));
    t.classpath = vec!["/dep/lib.jar".to_string(), "/out/a".to_string()];
    t.class_directory = "/out/a".to_string();
    t.scalac_options = vec!["-Xsemanticdb".to_string(), "-deprecation".to_string()];
    let configs = pc_target_configs(&model(vec![t]));
    assert_eq!(configs.len(), 1);
    assert_eq!(
        configs[0].classpath,
        vec!["/dep/lib.jar".to_string(), "/out/a".to_string()]
    );
    assert_eq!(configs[0].scalac_options, vec!["-deprecation".to_string()]);
    assert!(configs[0].source_dirs.is_empty());
}

#[test]
fn the_class_directory_comes_last_and_unrooted_targets_are_not_told() {
    let mut t = target("a", Some("/sdb"), Some("/src"));
    t.classpath = vec!["/x.jar".to_string(), "/x.jar".to_string()];
    let configs = pc_target_configs(&model(vec![t, target("b", Some("/sdb"), None)]));
    assert_eq!(configs.len(), 1);
    assert_eq!(configs[0].classpath, vec!["/x.jar".to_string(), "/out/a".to_string()]);
}

#[test]
fn the_inventory_is_sorted_and_keeps_every_target() {
    let found = doctor_targets_of(&model(vec![
        target("z", Some("/out/z"), Some("/src")),
        target("m", None, Some("/src")),
        target("a", Some("/out/a"), None),
    ]));
    assert_eq!(found.all_ids, vec!["a", "m", "z"]);
    assert_eq!(found.unavailable_ids, vec!["m"]);
    assert_eq!(
        found.indexable_roots,
        vec![
            ("a".to_string(), "/out/a".to_string()),
            ("z".to_string(), "/out/z".to_string())
        ]
    );
    assert_eq!(found.server_name, None);
}

#[test]
fn owners_are_keyed_by_the_normalized_uri() {
    let mut m = model(Vec::new());
    m.uri_to_target = vec![("file:///ws/x/../a.scala".to_string(), "t".to_string())];
    let owners = uri_owners(&m, &normal);
    assert_eq!(owners.get("file:///ws/a.scala"), Some(&"t".to_string()));
    assert!(owners.get("file:///ws/x/../a.scala").is_none());
}

#[test]
fn places_in_the_index_are_locations_in_the_workspace() {
    let result = locations_result(&vec![Loc {
        uri: "file:///a".to_string(),
        span: Span::new(1, 2, 3, 4),
    }]);
    assert_eq!(result.len(), 1);
    assert_eq!(result[0].uri, "file:///a");
    assert_eq!(result[0].range.start_line, 1);
    assert_eq!(result[0].range.start_character, 2);
    assert_eq!(result[0].range.end_line, 3);
    assert_eq!(result[0].range.end_character, 4);
    assert_eq!(result[0].origin, ORIGIN_WORKSPACE);
}

#[test]
fn found_methods_keep_their_symbol_and_kind() {
    let result = method_hits_result(&vec![MethodHit {
        uri: "file:///a".to_string(),
        symbol: "a/B#c().".to_string(),
        kind: 6,
        span: Span::new(1, 2, 1, 4),
    }]);
    assert_eq!(result[0].symbol, "a/B#c().");
    assert_eq!(result[0].kind, 6);
    assert_eq!(result[0].range.end_character, 4);
}

#[test]
fn messages_of_the_build_are_never_errors_of_the_server() {
    let error = log_build_message("build/logMessage", 1, "boom");
    assert_eq!(error.level, Level::Warn);
    assert_eq!(error.area, "bsp");
    assert_eq!(error.message, "build/logMessage: boom");
    assert_eq!(log_build_message("k", 2, "m").level, Level::Warn);
    assert_eq!(log_build_message("k", 3, "m").level, Level::Info);
    assert_eq!(log_build_message("k", 4, "m").level, Level::Info);
}

#[test]
fn the_status_of_a_compilation_has_a_name() {
    assert_eq!(bsp_status_name(2), "ERROR");
    assert_eq!(bsp_status_name(3), "CANCELLED");
    assert_eq!(bsp_status_name(-7), "-7");
    assert_eq!(compile_outcome(BspCompileOutcome::Done), CompileOutcome::Done);
    assert_eq!(
        compile_outcome(BspCompileOutcome::Failed { status_code: 2 }),
        CompileOutcome::Failed { reason: "ERROR".to_string() }
    );
    assert_eq!(
        compile_outcome(BspCompileOutcome::Error { message: "gone".to_string() }),
        CompileOutcome::Failed { reason: "gone".to_string() }
    );
}

#[test]
fn the_summary_names_the_targets_without_semanticdb() {
    let m = model(vec![
        target("a", Some("/out/a"), Some("/src")),
        target("b", None, None),
        target("c", None, None),
    ]);
    assert_eq!(
        model_summary(&m),
        "build model loaded: 3 Scala 3 target(s), 1 indexable, 2 without SemanticDB (no \
         -Xsemanticdb: b, c)"
    );
    assert_eq!(
        model_summary(&model(Vec::new())),
        "build model loaded: 0 Scala 3 target(s), 0 indexable, 0 without SemanticDB"
    );
}

#[test]
fn only_owned_open_documents_are_replayed_in_order() {
    let mut docs = DocumentStore::new();
    docs.open("file:///ws/b.scala", "B");
    docs.open("file:///ws/a.scala", "A");
    docs.open("file:///ws/orphan.scala", "O");
    let mut m = model(Vec::new());
    m.uri_to_target = vec![
        ("file:///ws/a.scala".to_string(), "ta".to_string()),
        ("file:///ws/b.scala".to_string(), "tb".to_string()),
        ("file:///ws/closed.scala".to_string(), "tc".to_string()),
    ];
    let buffers = replay_open_buffers(&docs, &uri_owners(&m, &normal));
    let seen: Vec<(&str, &str, &str)> = buffers
        .iter()
        .map(|b| (b.target_id.as_str(), b.uri.as_str(), b.text.as_str()))
        .collect();
    assert_eq!(
        seen,
        vec![("ta", "file:///ws/a.scala", "A"), ("tb", "file:///ws/b.scala", "B")]
    );
}

fn normal(uri: &str) -> String {
    match uri.strip_prefix("file://") {
        Some(path) => format!("file://{}", normalize(path)),
        None => uri.to_string(),
    }
}

fn done(_: &Vec<TargetSpec>) -> Result<(), String> {
    Ok(())
}

fn opened(_: &str) -> Result<(), String> {
    Ok(())
}

fn empty_model(_: &str) -> Result<LoadOutcome, String> {
    Ok(LoadOutcome::Model(ReadyModel {
        model: BspProjectModel { targets: Vec::new(), uri_to_target: Vec::new() },
        server_name: None,
        server_version: None,
    }))
}

#[test]
fn bootstrap_without_a_workspace_root_fails() {
    let state = build(None, &empty_model, &opened, &done, &normal);
    assert!(matches!(state, WorkspaceState::Failed { .. }));
    assert_eq!(
        state.status_line(),
        "bootstrap failed: no workspace root in the initialize params"
    );
}

#[test]
fn bootstrap_over_an_empty_model_is_ready_on_an_empty_index() {
    match build(Some("/ws"), &empty_model, &opened, &done, &normal) {
        WorkspaceState::Ready(plan) => {
            assert_eq!(plan.store_dir, "/ws/.scala3-bsp-semantic-ls");
            assert!(plan.targets.is_empty());
            assert!(plan.pc_targets.is_empty());
        }
        other => panic!("expected Ready, got {:?}", other.status_line()),
    }
}

#[test]
fn live_model_source_without_a_connection_file_selects_no_bsp() {
    let found = BspDiscovery { candidates: Vec::new(), invalid: vec!["x.json".to_string()] };
    let (chosen, line) = choose_connection("/ws", &found);
    assert!(chosen.is_none());
    assert_eq!(line.level, Level::Warn);
    assert_eq!(
        line.message,
        ".bsp discovery: no usable connection file under /ws/.bsp (1 invalid) — install one (for \
         mill: `mill mill.bsp.BSP/install`) and restart"
    );
    let state = build(
        Some("/ws"),
        &|_: &str| -> Result<LoadOutcome, String> { Ok(LoadOutcome::NoBsp) },
        &opened,
        &done,
        &normal,
    );
    assert_eq!(
        state.status_line(),
        "bootstrap failed: no build server connection found (the no-BSP warm-restart mode is \
         deferred)"
    );
}

#[test]
fn the_first_usable_connection_is_taken() {
    let found = BspDiscovery {
        candidates: vec![
            BspConnection { name: "mill".to_string(), argv: vec!["mill".to_string(), "--bsp".to_string()] },
            BspConnection { name: "sbt".to_string(), argv: Vec::new() },
        ],
        invalid: Vec::new(),
    };
    let (chosen, line) = choose_connection("/ws", &found);
    assert_eq!(chosen.unwrap().name, "mill");
    assert_eq!(line.level, Level::Info);
    assert_eq!(
        line.message,
        ".bsp discovery: 2 candidate(s) [\"mill\", \"sbt\"], 0 invalid; picked 'mill' \
         argv=[\"mill\", \"--bsp\"]"
    );
}

#[test]
fn bootstrap_propagates_a_model_load_failure() {
    let state = build(
        Some("/ws"),
        &|_: &str| -> Result<LoadOutcome, String> { Err("no build server found".to_string()) },
        &opened,
        &done,
        &normal,
    );
    match state {
        WorkspaceState::Failed { detail } => assert!(detail.contains("no build server")),
        other => panic!("expected Failed, got {:?}", other.status_line()),
    }
}

#[test]
fn the_first_failing_step_ends_the_bootstrap() {
    let unopened = |_: &str| -> Result<(), String> { Err("locked".to_string()) };
    let unindexed = |_: &Vec<TargetSpec>| -> Result<(), String> { Err("corrupt".to_string()) };
    assert_eq!(
        build_services("/ws", &empty_model, &unopened, &unindexed, &normal).err(),
        Some("locked".to_string())
    );
    assert_eq!(
        build_services("/ws", &empty_model, &opened, &unindexed, &normal).err(),
        Some("corrupt".to_string())
    );
}

#[test]
fn the_plan_carries_the_identity_of_the_build_server() {
    let load = |_: &str| -> Result<LoadOutcome, String> {
        Ok(LoadOutcome::Model(ReadyModel {
            model: model(vec![target("a", Some("/out/a"), Some("/src"))]),
            server_name: Some("mill".to_string()),
            server_version: Some("1.0".to_string()),
        }))
    };
    let plan = build_services("/ws", &load, &opened, &done, &normal).ok().unwrap();
    assert_eq!(plan.doctor_targets.server_name, Some("mill".to_string()));
    assert_eq!(plan.doctor_targets.server_version, Some("1.0".to_string()));
    assert_eq!(plan.sourceroots, vec!["/src"]);
    assert_eq!(plan.pc_targets[0].bsp_id, "a");
}

#[test]
fn a_session_fails_at_its_first_failing_step() {
    let named = || -> Result<(String, String), String> { Ok(("mill".to_string(), "1".to_string())) };
    let unnamed = || -> Result<(String, String), String> { Err("no handshake".to_string()) };
    let loaded = || -> Result<BspProjectModel, String> { Ok(model(Vec::new())) };
    let unloaded = || -> Result<BspProjectModel, String> { Err("no targets".to_string()) };
    let ready = ready_model_from_session(&named, &loaded).unwrap();
    assert_eq!(ready.server_name, Some("mill".to_string()));
    assert_eq!(ready.server_version, Some("1".to_string()));
    assert_eq!(ready_model_from_session(&unnamed, &loaded), Err("no handshake".to_string()));
    assert_eq!(ready_model_from_session(&named, &unloaded), Err("no targets".to_string()));
}

#[test]
fn a_failed_reload_keeps_the_services() {
    let gone = || -> Result<BspProjectModel, String> { Err("gone".to_string()) };
    match reload_build_model("/ws", None, None, &gone, &done, &normal) {
        ReloadOutcome::Keep { warning } => assert_eq!(
            warning.message,
            "build target model reload failed: gone — keeping the previous ready snapshot"
        ),
        ReloadOutcome::Adopt { .. } => panic!("expected the services to stay"),
    }
    let one = || -> Result<BspProjectModel, String> {
        Ok(model(vec![target("a", Some("/out/a"), Some("/src"))]))
    };
    let unindexed = |_: &Vec<TargetSpec>| -> Result<(), String> { Err("corrupt".to_string()) };
    match reload_build_model("/ws", None, None, &one, &unindexed, &normal) {
        ReloadOutcome::Keep { warning } => assert_eq!(
            warning.message,
            "build target model reingest failed: corrupt — keeping the previous ready snapshot"
        ),
        ReloadOutcome::Adopt { .. } => panic!("expected the services to stay"),
    }
}

#[test]
fn a_reload_without_indexed_targets_replaces_no_index() {
    let none = || -> Result<BspProjectModel, String> { Ok(model(vec![target("b", None, None)])) };
    let unindexed = |_: &Vec<TargetSpec>| -> Result<(), String> { Err("must not run".to_string()) };
    match reload_build_model("/ws", Some("mill".to_string()), None, &none, &unindexed, &normal) {
        ReloadOutcome::Adopt { plan } => {
            assert!(plan.targets.is_empty());
            assert_eq!(plan.doctor_targets.unavailable_ids, vec!["b"]);
            assert_eq!(plan.doctor_targets.server_name, Some("mill".to_string()));
        }
        ReloadOutcome::Keep { .. } => panic!("expected new services"),
    }
}

#[test]
fn nothing_is_loaded_without_a_root_and_no_index_is_opened_without_a_model() {
    let unasked = |_: &str| -> Result<LoadOutcome, String> { panic!("loaded without a root") };
    let unopened = |_: &str| -> Result<(), String> { panic!("opened without a model") };
    let unindexed = |_: &Vec<TargetSpec>| -> Result<(), String> { panic!("indexed without an index") };
    assert!(matches!(
        build(None, &unasked, &unopened, &unindexed, &normal),
        WorkspaceState::Failed { .. }
    ));
    let refused = |_: &str| -> Result<LoadOutcome, String> { Err("refused".to_string()) };
    assert_eq!(
        build_services("/ws", &refused, &unopened, &unindexed, &normal).err(),
        Some("refused".to_string())
    );
    let none = |_: &str| -> Result<LoadOutcome, String> { Ok(LoadOutcome::NoBsp) };
    assert!(build_services("/ws", &none, &unopened, &unindexed, &normal).is_err());
    let locked = |_: &str| -> Result<(), String> { Err("locked".to_string()) };
    assert_eq!(
        build_services("/ws", &empty_model, &locked, &unindexed, &normal).err(),
        Some("locked".to_string())
    );
}

#[test]
fn a_reload_without_indexed_targets_never_indexes() {
    let none = || -> Result<BspProjectModel, String> { Ok(model(Vec::new())) };
    let unindexed = |_: &Vec<TargetSpec>| -> Result<(), String> { panic!("indexed no targets") };
    assert!(matches!(
        reload_build_model("/ws", None, None, &none, &unindexed, &normal),
        ReloadOutcome::Adopt { .. }
    ));
}

fn record(level: Level, area: &str, message: &str) -> LogRecord {
    LogRecord { level, area: area.to_string(), message: message.to_string() }
}

#[test]
fn the_log_tells_how_a_bootstrap_went() {
    assert_eq!(
        bootstrap_started("/ws"),
        record(Level::Info, "boot", "bootstrap started for workspace /ws")
    );
    assert_eq!(
        bootstrap_ended(Some("/ws"), &WorkspaceState::Ready(()), "1.5"),
        Some(record(Level::Info, "boot", "READY in 1.5s total"))
    );
    let failed: WorkspaceState<()> = WorkspaceState::Failed { detail: "locked".to_string() };
    assert_eq!(
        bootstrap_ended(Some("/ws"), &failed, "0.1"),
        Some(record(
            Level::Error,
            "boot",
            "bootstrap failed after 0.1s: locked — run scala3SemanticLs.doctor"
        ))
    );
    assert_eq!(
        bootstrap_ended(None, &failed, "0.1"),
        Some(record(
            Level::Error,
            "boot",
            "bootstrap failed: no workspace root in the initialize params — run \
             scala3SemanticLs.doctor"
        ))
    );
    let waiting: WorkspaceState<()> = WorkspaceState::NotReady { detail: "later".to_string() };
    assert_eq!(bootstrap_ended(Some("/ws"), &waiting, "0.1"), None);
}

#[test]
fn the_log_tells_of_the_index() {
    assert_eq!(
        store_opened("/ws/.s", Some(RecoveredIndex { generation: 7, segment: 12 })),
        record(Level::Info, "boot", "store opened at /ws/.s: recovered generation 7 (segment 12)")
    );
    assert_eq!(
        store_opened("/ws/.s", None),
        record(Level::Info, "boot", "store opened at /ws/.s: fresh (no prior index)")
    );
    assert_eq!(
        ingest_completed("3 docs"),
        record(Level::Info, "boot", "initial ingest complete — 3 docs")
    );
}

#[test]
fn the_log_tells_of_a_reload() {
    assert_eq!(
        target_change_received(),
        record(
            Level::Info,
            "bsp",
            "buildTarget/didChange received — scheduling a build model reload"
        )
    );
    assert_eq!(
        reload_started(),
        record(
            Level::Info,
            "bsp",
            "build model reload started (buildTarget/didChange): refetching over the retained \
             session"
        )
    );
    let plan = |targets: Vec<BspTarget>| {
        let fetch = move || -> Result<BspProjectModel, String> {
            Ok(model(
                targets
                    .iter()
                    .map(|t| target(&t.bsp_id, Some("/out"), Some("/src")))
                    .collect(),
            ))
        };
        match reload_build_model("/ws", None, None, &fetch, &done, &normal) {
            ReloadOutcome::Adopt { plan } => plan,
            ReloadOutcome::Keep { .. } => panic!("expected new services"),
        }
    };
    let before = plan(vec![target("a", None, None)]);
    let after = plan(vec![target("a", None, None), target("b", None, None)]);
    assert_eq!(
        reload_completed(&before, &after),
        record(Level::Info, "bsp", "build model reload complete: 1 -> 2 indexable target(s)")
    );
}

#[test]
fn each_unusable_connection_file_is_warned_of() {
    let found = BspDiscovery {
        candidates: Vec::new(),
        invalid: vec!["a.json: no argv".to_string(), "b.json: no name".to_string()],
    };
    assert_eq!(
        invalid_connections(&found),
        vec![
            record(
                Level::Warn,
                "boot",
                ".bsp discovery: invalid connection file: a.json: no argv"
            ),
            record(
                Level::Warn,
                "boot",
                ".bsp discovery: invalid connection file: b.json: no name"
            ),
        ]
    );
}

#[test]
fn the_names_of_connections_are_escaped() {
    let argv = vec!["a \"b\"".to_string(), "tab\there".to_string()];
    let shown = format!("{:?}", argv);
    let found = BspDiscovery {
        candidates: vec![BspConnection { name: "é\n".to_string(), argv }],
        invalid: Vec::new(),
    };
    let (_, line) = choose_connection("/ws", &found);
    assert_eq!(
        line.message,
        format!(
            ".bsp discovery: 1 candidate(s) {:?}, 0 invalid; picked 'é\n' argv={}",
            vec!["é\n"],
            shown
        )
    );
}

#[test]
fn each_entry_owns_its_uri_and_of_two_spellings_the_later_counts() {
    let entry = |uri: &str, id: &str| (uri.to_string(), id.to_string());
    let mut m = model(Vec::new());
    m.uri_to_target = vec![
        entry("file:///ws/a.scala", "a"),
        entry("file:///ws/b.scala", "b"),
        entry("file:///ws/x/../b.scala", "c"),
    ];
    let owners = uri_owners(&m, &normal);
    assert_eq!(owners.get("file:///ws/a.scala"), Some(&"a".to_string()));
    assert_eq!(owners.get("file:///ws/b.scala"), Some(&"c".to_string()));
    assert_eq!(owners.sorted_keys(), vec!["file:///ws/a.scala", "file:///ws/b.scala"]);
}
