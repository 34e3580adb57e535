use std::collections::HashMap;

use ls_server::doctor::{
    java_version, mif_runnable, nix_lock_status, offline_doctor_report, BspSection, DoctorReport,
    Freshness, NixFacts, NixSection, PcPluginsSection, PcSection, RuntimeSection, SectionState,
    SemanticdbRoot, SemanticdbSection, StoreSection,
};
use ls_server::json;

fn sample_ready() -> DoctorReport {
    DoctorReport {
        runtime: RuntimeSection {
            java: "21.0.2".to_string(),
            native_access_enabled_for: vec!["ALL-UNNAMED".to_string()],
            compact_object_headers: "enabled".to_string(),
            aot_cache: "missing (no -XX:AOTCache flag)".to_string(),
        },
        nix: NixSection {
            flake_detected: true,
            mill_ivy_fetcher_input: true,
            ivy_lock_path: "nix/ivy-lock.nix".to_string(),
            ivy_lock_exists: true,
            lock_status: "fresh".to_string(),
        },
        bsp: SectionState::Available(BspSection {
            server_name: None,
            server_version: None,
            target_count: 2,
            scala3_targets: vec!["a".to_string(), "b".to_string()],
            index_unavailable_targets: Vec::new(),
        }),
        semanticdb: SectionState::Available(SemanticdbSection {
            roots: vec![SemanticdbRoot {
                bsp_id: "a".to_string(),
                semanticdb_root: "/ws/out-a".to_string(),
                exists: true,
                semanticdb_file_count: 3,
            }],
            freshness: None,
            generated_source_count: 0,
            stale_targets: Vec::new(),
        }),
        store: StoreSection {
            status: "active".to_string(),
            facts: vec!["segment: id 1".to_string()],
        },
        pc: SectionState::Available(PcSection {
            worker_status: "not booted (cold)".to_string(),
            active_targets: Vec::new(),
            registered_targets: vec!["a".to_string()],
        }),
        pc_plugins: SectionState::Unavailable(PcPluginsSection::DEFERRED.to_string()),
    }
}

fn no_nix() -> NixFacts {
    NixFacts {
        flake_exists: false,
        flake: None,
        lock_exists: false,
        mif_runnable: false,
        build_exists: false,
        lock_modified: None,
        build_modified: None,
    }
}

/// The report of a directory in which nothing was found.
fn offline(root: &str) -> DoctorReport {
    DoctorReport::offline(
        RuntimeSection::gather("21.0.2".to_string()),
        NixSection::gather(root, &no_nix()),
        StoreSection::gather(None),
    )
}

fn value_of(value: &json::Json) -> serde_json::Value {
    serde_json::from_slice(&json::encode(value)).unwrap()
}

#[test]
fn text_renders_the_seven_sections_in_fixed_order() {
    let text = sample_ready().render_text();
    let headings: Vec<&str> = text
        .lines()
        .filter(|l| !l.starts_with(' ') && l.ends_with(':'))
        .collect();
    assert_eq!(
        headings,
        vec![
            "Runtime:",
            "Nix:",
            "BSP:",
            "SemanticDB:",
            "Store:",
            "PC:",
            "PC Plugins:"
        ]
    );
}

#[test]
fn text_renders_runtime_nix_and_pc_facts() {
    let text = sample_ready().render_text();
    assert!(text.contains("  Java: 21.0.2"), "{text}");
    assert!(text.contains("  Native access: enabled for ALL-UNNAMED"), "{text}");
    assert!(text.contains("  Compact Object Headers: enabled"), "{text}");
    assert!(text.contains("  flake detected: yes"), "{text}");
    assert!(text.contains("  worker status: not booted (cold)"), "{text}");
    assert!(text.contains("  registered targets: 1 (a)"), "{text}");
    assert!(text.contains("  active targets: none"), "{text}");
}

#[test]
fn the_whole_text_of_a_report() {
    assert_eq!(
        sample_ready().render_text(),
        "Runtime:\n  Java: 21.0.2\n  Native access: enabled for ALL-UNNAMED\n  Compact Object \
         Headers: enabled\n  AOT cache: missing (no -XX:AOTCache flag)\n\nNix:\n  flake detected: \
         yes\n  mill-ivy-fetcher input: yes\n  ivy lock: nix/ivy-lock.nix (exists)\n  lock status: \
         fresh\n\nBSP:\n  server: unknown (initialize result not provided)\n  targets: 2\n  Scala 3 \
         targets: 2 (a, b)\n  SemanticDB coverage: all targets emit SemanticDB\n\nSemanticDB:\n  \
         semanticdb roots: 1\n    a: /ws/out-a (exists, 3 semanticdb files)\n  doc freshness: \
         unavailable: not computed yet\n  generated source status: 0\n  stale targets: \
         none\n\nStore:\n  segment: id 1\n\nPC:\n  worker status: not booted (cold)\n  active \
         targets: none\n  registered targets: 1 (a)\n\nPC Plugins:\n  unavailable: pcPluginStatus \
         is not ported: plugin-status inspection is unavailable\n"
    );
}

#[test]
fn unavailable_sections_render_the_reason_not_omitted() {
    let text = offline("/nonexistent-doctor-root").render_text();
    assert!(text.contains("BSP:\n  unavailable: no BSP connection"), "{text}");
    assert!(text.contains("SemanticDB:\n  unavailable: no BSP connection"), "{text}");
    assert!(text.contains("PC:\n  unavailable: no BSP connection"), "{text}");
    assert!(text.contains("PC Plugins:\n  unavailable:"), "{text}");
    assert!(text.contains("Store:"), "{text}");
}

#[test]
fn long_lists_are_capped_and_lacking_targets_are_an_error() {
    let ids: Vec<String> = (0..23).map(|i| format!("t{i}")).collect();
    let mut report = sample_ready();
    report.bsp = SectionState::Available(BspSection {
        server_name: Some("mill".to_string()),
        server_version: Some("1.0".to_string()),
        target_count: 23,
        scala3_targets: ids.clone(),
        index_unavailable_targets: vec!["x".to_string(), "y".to_string()],
    });
    let text = report.render_text();
    assert!(text.contains("  server: mill 1.0\n"), "{text}");
    assert!(text.contains("t18, t19, ... (+3 more))"), "{text}");
    assert!(!text.contains("t20"), "{text}");
    assert!(
        text.contains(
            "SemanticDB coverage: ERROR - 2 target(s) without SemanticDB (recompile with \
             -Xsemanticdb): x, y\n"
        ),
        "{text}"
    );
}

#[test]
fn freshness_renders_its_counts_and_uris() {
    let mut report = sample_ready();
    report.semanticdb = SectionState::Available(SemanticdbSection {
        roots: vec![SemanticdbRoot {
            bsp_id: "a".to_string(),
            semanticdb_root: "/out".to_string(),
            exists: false,
            semanticdb_file_count: 0,
        }],
        freshness: Some(Freshness {
            fresh: 5,
            stale: 1,
            missing: 2,
            uris: vec!["u".to_string(), "v".to_string()],
        }),
        generated_source_count: 4,
        stale_targets: vec!["a".to_string()],
    });
    let text = report.render_text();
    assert!(
        text.contains(
            "    a: /out (missing)\n  fresh docs: 5\n  stale docs (md5 mismatch): 1\n  missing \
             docs: 2\n  stale/missing uris: u, v\n  generated source status: 4\n  stale targets: 1 \
             (a)\n"
        ),
        "{text}"
    );
    let value = value_of(&report.render_json());
    assert_eq!(value["semanticdb"]["freshness"]["stale"], 1);
    assert_eq!(value["semanticdb"]["roots"][0]["exists"], false);
}

#[test]
fn json_has_the_store_key_and_no_sqlite_or_postings() {
    let value = value_of(&sample_ready().render_json());
    assert!(value.get("store").is_some(), "store key present");
    assert!(value.get("sqlite").is_none(), "no sqlite key");
    assert!(value.get("postings").is_none(), "no postings key");
    for key in ["runtime", "nix", "bsp", "semanticdb", "store", "pc", "pcPlugins"] {
        assert!(value.get(key).is_some(), "missing key {key}");
    }
    assert_eq!(value["store"]["status"], "active");
    assert_eq!(value["pc"]["registeredTargets"][0], "a");
}

#[test]
fn json_unavailable_sections_encode_the_reason() {
    let value = value_of(&offline("/nonexistent-doctor-root").render_json());
    assert_eq!(value["bsp"]["unavailable"], "no BSP connection");
    assert!(value["pcPlugins"]["unavailable"].is_string());
    assert!(serde_json::to_string(&value).is_ok());
}

/// Files by path, as a machine would hold them.
fn files(entries: &[(&str, &str)]) -> HashMap<String, String> {
    entries.iter().map(|(k, v)| (k.to_string(), v.to_string())).collect()
}

fn version(
    entries: &[(&str, &str)],
    config: Option<&str>,
    ls_libjvm: Option<&str>,
    java_home: Option<&str>,
) -> String {
    let held = files(entries);
    java_version(
        config,
        ls_libjvm,
        java_home,
        &|path: &str| held.contains_key(path),
        &|path: &str| held.get(path).cloned(),
    )
}

#[test]
fn java_version_reads_a_nixpkgs_package_root_java_home() {
    let found = version(
        &[("/jdk/lib/openjdk/release", "JAVA_VERSION=\"25.0.4\"\n")],
        None,
        None,
        Some("/jdk"),
    );
    assert_eq!(found, "25.0.4");
}

#[test]
fn java_version_reads_a_plain_java_home_release() {
    let found = version(
        &[("/jdk/release", "IMPLEMENTOR=\"x\"\nJAVA_VERSION=\"21.0.2\"\n")],
        None,
        None,
        Some("/jdk"),
    );
    assert_eq!(found, "21.0.2");
}

#[test]
fn java_version_prefers_the_ls_libjvm_derived_home_over_java_home() {
    let found = version(
        &[
            ("/libjvm-jdk/release", "JAVA_VERSION=\"25.0.4\"\n"),
            ("/other/release", "JAVA_VERSION=\"11.0.1\"\n"),
        ],
        None,
        Some("/libjvm-jdk/lib/server/libjvm.so"),
        Some("/other"),
    );
    assert_eq!(found, "25.0.4");
}

#[test]
fn java_version_prefers_the_workspace_config_java_home_over_every_env_tier() {
    let found = version(
        &[
            ("/config-jdk/release", "JAVA_VERSION=\"25.0.4\"\n"),
            ("/env-jdk/release", "JAVA_VERSION=\"11.0.1\"\n"),
        ],
        Some(r#"{ "javaHome": "/config-jdk" }"#),
        Some("/env-jdk/lib/server/libjvm.so"),
        Some("/env-jdk"),
    );
    assert_eq!(found, "25.0.4");
}

#[test]
fn java_version_without_a_java_version_line_names_the_release_file() {
    let found = version(&[("/jdk/release", "IMPLEMENTOR=\"x\"\n")], None, None, Some("/jdk"));
    assert!(found.starts_with("unknown (no JAVA_VERSION in "), "{found}");
}

#[test]
fn java_version_of_an_unreadable_release_names_the_file() {
    assert_eq!(version(&[], None, None, Some("/jdk")), "unknown (/jdk/release unreadable)");
}

#[test]
fn java_version_without_any_java_home_tier_is_unavailable() {
    let found = version(&[], None, None, None);
    assert!(found.starts_with("unavailable:"), "{found}");
    for tier in ["javaHome", "LS_LIBJVM", "JAVA_HOME"] {
        assert!(found.contains(tier), "{found}");
    }
}

#[test]
fn the_lock_status_goes_through_every_stage() {
    let mut facts = no_nix();
    assert_eq!(nix_lock_status("/ws", &facts), "unknown: no flake.nix under /ws");
    facts.flake_exists = true;
    assert_eq!(
        nix_lock_status("/ws", &facts),
        "stale (nix/ivy-lock.nix does not exist; run `mif run -p . -o nix/ivy-lock.nix`)"
    );
    facts.lock_exists = true;
    assert!(nix_lock_status("/ws", &facts).starts_with("unknown: mif is not runnable"));
    facts.mif_runnable = true;
    assert_eq!(
        nix_lock_status("/ws", &facts),
        "unknown: build.mill not found next to the lock"
    );
    facts.build_exists = true;
    assert_eq!(nix_lock_status("/ws", &facts), "unknown: could not read modification times");
    facts.lock_modified = Some(10);
    facts.build_modified = Some(10);
    assert!(nix_lock_status("/ws", &facts).starts_with("fresh (heuristic:"));
    facts.build_modified = Some(11);
    assert!(nix_lock_status("/ws", &facts).starts_with("stale (build.mill modified after"));
}

#[test]
fn the_flake_counts_only_where_it_exists() {
    let mut facts = no_nix();
    facts.flake = Some("inputs.mill-ivy-fetcher.url = 1;".to_string());
    assert!(!NixSection::gather("/ws", &facts).mill_ivy_fetcher_input);
    facts.flake_exists = true;
    assert!(NixSection::gather("/ws", &facts).mill_ivy_fetcher_input);
    facts.flake = Some("inputs = {};".to_string());
    assert!(!NixSection::gather("/ws", &facts).mill_ivy_fetcher_input);
}

#[test]
fn mif_is_looked_for_in_every_directory() {
    assert!(!mif_runnable(None, &|_: &str| true));
    assert!(mif_runnable(Some("/a:/b"), &|path: &str| path == "/b/mif"));
    assert!(!mif_runnable(Some("/a:/b"), &|path: &str| path == "/c/mif"));
    assert!(mif_runnable(Some(":/b"), &|path: &str| path == "mif"));
}

#[test]
fn offline_doctor_report_names_the_workspace_state_and_store() {
    let report = offline_doctor_report("/ws/x", &offline("/ws/x"), false);
    assert!(report.contains("scala3-bsp-semantic-ls"));
    assert!(report.contains("workspace: /ws/x"));
    assert!(report.contains("offline"));
    assert!(report.contains("Store:"), "{report}");
    assert!(report.contains("no store at this workspace root"), "{report}");
    assert!(report.contains("Runtime:"), "{report}");
    assert!(report.contains("BSP:\n  unavailable:"), "{report}");
}

#[test]
fn offline_doctor_json_is_a_structured_object_with_a_store_key() {
    let text = offline_doctor_report("/ws/x", &offline("/ws/x"), true);
    let value: serde_json::Value = serde_json::from_str(&text).expect("valid JSON");
    assert!(value.get("store").is_some());
    assert!(value.get("sqlite").is_none());
    assert_eq!(value["bsp"]["unavailable"], "no BSP connection");
}
