use ls_server::convert::TextEdit;
use ls_server::documents::{apply_content_changes, ContentChange};
use ls_server::formatting::{
    duration_text, minimal_edits, poll_step, resolve_scalafmt, run_outcome, scalafmt_args, scalafmt_conf,
    scalafmt_environment, spawn_error, stderr_tail, Polled, RunStep, SCALAFMT_TIMEOUT,
    STDERR_TAIL_BYTES,
};

#[test]
fn resolution_prefers_the_workspace_config_over_env_and_path() {
    assert_eq!(
        resolve_scalafmt(
            Some(r#"{"scalafmt": "/from/config/scalafmt"}"#),
            Some("/from/env/scalafmt"),
            Some("/on-path"),
            &|place: &str| place == "/on-path/scalafmt",
        ),
        Some("/from/config/scalafmt".to_string())
    );
}

#[test]
fn resolution_prefers_ls_scalafmt_over_path_without_a_config() {
    assert_eq!(
        resolve_scalafmt(
            None,
            Some("/from/env/scalafmt"),
            Some("/on-path"),
            &|place: &str| place == "/on-path/scalafmt",
        ),
        Some("/from/env/scalafmt".to_string())
    );
}

#[test]
fn the_path_tier_finds_the_first_executable_scalafmt() {
    assert_eq!(
        resolve_scalafmt(None, None, Some("::/non-exec:/exec"), &|place: &str| {
            place == "/exec/scalafmt"
        }),
        Some("/exec/scalafmt".to_string())
    );
    assert_eq!(
        resolve_scalafmt(None, None, Some("/a:/b"), &|_: &str| true),
        Some("/a/scalafmt".to_string())
    );
}

#[test]
fn a_config_without_the_key_falls_through_and_no_tier_is_none() {
    let never = |_: &str| false;
    assert_eq!(
        resolve_scalafmt(
            Some(r#"{"javaHome": "/jdk"}"#),
            Some("/from/env/scalafmt"),
            None,
            &never
        ),
        Some("/from/env/scalafmt".to_string())
    );
    assert_eq!(
        resolve_scalafmt(Some("not json"), Some("/from/env/scalafmt"), None, &never),
        Some("/from/env/scalafmt".to_string())
    );
    assert_eq!(resolve_scalafmt(Some("not json"), None, None, &never), None);
}

#[test]
fn scalafmt_conf_is_the_workspace_root_file_only() {
    assert_eq!(scalafmt_conf("/ws", &|_: &str| false), None);
    let held = |path: &str| path == "/ws/.scalafmt.conf" || path == "/ws/sub/.scalafmt.conf";
    assert_eq!(scalafmt_conf("/ws", &held), Some("/ws/.scalafmt.conf".to_string()));
    assert_eq!(scalafmt_conf("/ws/sub", &held).unwrap(), "/ws/sub/.scalafmt.conf");
}

#[test]
fn the_runner_pipes_stdin_to_stdout() {
    assert_eq!(
        run_outcome("object A\n", true, "exit status: 0", b"object A\nextra\n", b""),
        Ok("object A\nextra\n".to_string())
    );
    assert_eq!(
        scalafmt_args("/ws/.scalafmt.conf"),
        vec!["--stdin", "--config", "/ws/.scalafmt.conf", "--non-interactive"]
    );
}

#[test]
fn silent_stdout_with_a_clean_exit_means_unchanged() {
    assert_eq!(
        run_outcome("object A\n", true, "exit status: 0", b"", b""),
        Ok("object A\n".to_string())
    );
}

#[test]
fn a_wedged_binary_is_killed_at_the_deadline_with_a_typed_error() {
    assert_eq!(poll_step(Polled::Running, 199, 200), RunStep::Wait);
    match poll_step(Polled::Running, 200, 200) {
        RunStep::Kill(error) => {
            assert!(error.contains("timed out"), "{error}");
            assert_eq!(error, "scalafmt timed out after 200ms and was killed");
        }
        other => panic!("expected a kill, got {other:?}"),
    }
    assert_eq!(
        poll_step(Polled::Running, SCALAFMT_TIMEOUT, SCALAFMT_TIMEOUT),
        RunStep::Kill("scalafmt timed out after 10s and was killed".to_string())
    );
    assert_eq!(poll_step(Polled::Exited, 500, 200), RunStep::Collect);
    assert_eq!(
        poll_step(Polled::Failed("no child".to_string()), 0, 200),
        RunStep::Fail("failed to wait for scalafmt: no child".to_string())
    );
}

#[test]
fn a_non_zero_exit_surfaces_the_stderr_tail() {
    let error = run_outcome(
        "object A\n",
        false,
        "exit status: 2",
        b"",
        b"stdin.scala:3: error: illegal start of definition\n",
    )
    .unwrap_err();
    assert!(error.contains("scalafmt failed"), "{error}");
    assert!(
        error.contains("stdin.scala:3: error: illegal start of definition"),
        "{error}"
    );
    assert_eq!(
        error,
        "scalafmt failed (exit status: 2): stdin.scala:3: error: illegal start of definition"
    );
}

#[test]
fn an_error_output_that_is_no_text_is_read_with_replacements() {
    let error = run_outcome("", false, "exit status: 1", b"", b"bad \xff byte").unwrap_err();
    assert_eq!(error, "scalafmt failed (exit status: 1): bad \u{fffd} byte");
}

#[test]
fn an_output_that_is_no_text_is_an_error() {
    assert_eq!(
        run_outcome("", true, "exit status: 0", b"\xff\xfe", b""),
        Err("scalafmt produced non-UTF-8 output".to_string())
    );
}

#[test]
fn a_missing_binary_is_a_typed_spawn_error() {
    let error = spawn_error("/absent-scalafmt", "No such file or directory");
    assert!(error.contains("failed to spawn scalafmt"), "{error}");
    assert_eq!(
        error,
        "failed to spawn scalafmt (/absent-scalafmt): No such file or directory"
    );
}

#[test]
fn the_spawn_exports_coursier_offline_mode() {
    assert_eq!(
        scalafmt_environment(),
        ("COURSIER_MODE".to_string(), "offline".to_string())
    );
}

#[test]
fn stderr_tail_keeps_the_version_mismatch_and_drops_jvm_noise() {
    let trace = "Picked up JAVA_TOOL_OPTIONS: -Dhttp.proxyHost=proxy\n\
         org.scalafmt.cli.FailedToFormat: /ws/.scalafmt.conf\n\
         Caused by: coursierapi.error.MultipleResolutionError: Error downloading org.scala-lang:scala-reflect:2.13.16\n\
         \u{20}\u{20}not found: /home/user/.ivy2/local/org.scala-lang/scala-reflect/2.13.16/ivys/ivy.xml\n\
         Error downloading org.scalameta:scalafmt-core_2.13:3.9.7\n\
         \u{20}\u{20}not found: /cache/https/repo1.maven.org/maven2/org/scalameta/scalafmt-core_2.13/3.9.7/scalafmt-core_2.13-3.9.7.pom\n\
         \tat coursierapi.error.MultipleResolutionError.of(MultipleResolutionError.java:28)\n\
         \tat org.scalafmt.cli.Cli$.run(Cli.scala:68)\n";
    let tail = stderr_tail(trace);
    assert!(
        tail.contains("Error downloading org.scalameta:scalafmt-core_2.13:3.9.7"),
        "{tail}"
    );
    assert!(!tail.contains("Picked up"), "{tail}");
    assert!(!tail.contains("\tat "), "{tail}");

    let parse = "Picked up JAVA_TOOL_OPTIONS: x\n\
         stdin.scala:3: error: [dialect scala3] illegal start of simple expression\n\
         }\n\
         ^\n";
    let tail = stderr_tail(parse);
    assert!(tail.starts_with("stdin.scala:3: error:"), "{tail}");

    assert_eq!(stderr_tail(""), "(no stderr)");
}

#[test]
fn stderr_tail_caps_lines_and_bytes_keeping_the_end() {
    let many: String = (0..40).map(|i| format!("line {i}\n")).collect();
    let tail = stderr_tail(&many);
    assert!(tail.starts_with("line 30"), "{tail}");
    assert!(tail.ends_with("line 39"), "{tail}");

    let huge = format!("{}\nthe end", "x".repeat(3000));
    let tail = stderr_tail(&huge);
    assert!(tail.len() <= STDERR_TAIL_BYTES + '…'.len_utf8());
    assert!(tail.starts_with('…'), "{tail}");
    assert!(tail.ends_with("the end"), "{tail}");
}

/// Applies edits that address the original text, from the last to the first.
fn apply(original: &str, edits: &[TextEdit]) -> String {
    let mut text = original.to_string();
    for edit in edits.iter().rev() {
        let change = ContentChange { range: Some(edit.range), text: edit.new_text.clone() };
        text = apply_content_changes(&text, &[change]);
    }
    text
}

#[test]
fn an_identical_result_is_the_empty_edit_list() {
    assert_eq!(minimal_edits("object A\n", "object A\n"), vec![]);
    assert_eq!(minimal_edits("", ""), vec![]);
}

#[test]
fn multi_hunk_changes_produce_minimal_separated_edits() {
    let original = "object   A {\n  val ok = 1\n  def f( x:Int )=x\n}\n";
    let formatted = "object A {\n  val ok = 1\n  def f(x: Int) = x\n}\n";
    let edits = minimal_edits(original, formatted);
    assert!(
        edits.len() >= 2,
        "two separated hunks must not collapse into one whole-file edit: {edits:?}"
    );
    assert!(
        edits
            .iter()
            .all(|edit| edit.range.start.line != 1 && edit.range.end.line != 1),
        "the already-formatted line must stay untouched: {edits:?}"
    );
    assert_eq!(edits[0].range.start.line, 0);
    assert_eq!(apply(original, &edits), formatted);
}

#[test]
fn edits_after_an_astral_char_use_utf16_columns() {
    let original = "val 𝕏x=1\n";
    let formatted = "val 𝕏x = 1\n";
    let edits = minimal_edits(original, formatted);
    assert_eq!(edits.len(), 1, "{edits:?}");
    assert_eq!(edits[0].range.start.line, 0);
    assert_eq!(edits[0].range.start.character, 7);
    assert_eq!(apply(original, &edits), formatted);
}

#[test]
fn crlf_originals_map_to_correct_positions() {
    let original = "object A {\r\n  val x=1\r\n}\r\n";
    let formatted = "object A {\r\n  val x = 1\r\n}\r\n";
    let edits = minimal_edits(original, formatted);
    assert!(!edits.is_empty());
    assert!(
        edits.iter().all(|edit| edit.range.start.line == 1),
        "only the middle line changed: {edits:?}"
    );
    assert_eq!(apply(original, &edits), formatted);
}

#[test]
fn a_whole_file_change_still_applies_to_the_formatted_text() {
    let original = "class   Old {\n}\n";
    let formatted = "object New:\n  def fresh: Int = 42\n";
    let edits = minimal_edits(original, formatted);
    assert!(!edits.is_empty());
    assert_eq!(apply(original, &edits), formatted);
}

#[test]
fn pure_insert_and_pure_delete_fold_to_single_edits() {
    let original = "object A {\n}\n";
    let with_body = "object A {\n  val x = 1\n}\n";
    let inserts = minimal_edits(original, with_body);
    assert_eq!(inserts.len(), 1, "{inserts:?}");
    assert_eq!(inserts[0].range.start, inserts[0].range.end);
    assert_eq!(apply(original, &inserts), with_body);

    let deletes = minimal_edits(with_body, original);
    assert_eq!(deletes.len(), 1, "{deletes:?}");
    assert_eq!(deletes[0].new_text, "");
    assert_eq!(apply(with_body, &deletes), original);
}

#[test]
fn a_duration_reads_as_the_standard_library_prints_it() {
    for (millis, shown) in [
        (0, "0ns"),
        (1, "1ms"),
        (999, "999ms"),
        (1000, "1s"),
        (1001, "1.001s"),
        (1010, "1.01s"),
        (1500, "1.5s"),
        (10_000, "10s"),
        (60_120, "60.12s"),
        (u64::MAX, "18446744073709551.615s"),
    ] {
        assert_eq!(duration_text(millis), shown);
    }
    for millis in 0..5000u64 {
        assert_eq!(
            duration_text(millis),
            format!("{:?}", std::time::Duration::from_millis(millis))
        );
    }
}
