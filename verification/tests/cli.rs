use ls_server::cli::{parse_args, resolve_doctor_dir, CliAction};
use ls_server::doctor::version_line;

fn args(items: &[&str]) -> Vec<String> {
    items.iter().map(|s| s.to_string()).collect()
}

#[test]
fn version_flag_selects_version() {
    assert_eq!(parse_args(&args(&["--version"])), CliAction::Version);
}

#[test]
fn version_wins_over_other_arguments() {
    assert_eq!(parse_args(&args(&["--doctor", "--version"])), CliAction::Version);
    assert_eq!(parse_args(&args(&["--version", "--anything"])), CliAction::Version);
}

#[test]
fn doctor_without_a_dir_defaults_to_the_current_directory() {
    assert_eq!(
        parse_args(&args(&["--doctor"])),
        CliAction::Doctor { dir: ".".to_string() }
    );
}

#[test]
fn doctor_takes_the_following_directory_argument() {
    assert_eq!(
        parse_args(&args(&["--doctor", "/tmp/ws"])),
        CliAction::Doctor { dir: "/tmp/ws".to_string() }
    );
}

#[test]
fn no_arguments_starts_the_server() {
    assert_eq!(parse_args(&[]), CliAction::Serve);
}

#[test]
fn removed_pc_backend_flags_are_now_usage_errors() {
    assert!(matches!(parse_args(&args(&["--forked-pc"])), CliAction::Usage { .. }));
    assert!(matches!(parse_args(&args(&["--in-process-pc"])), CliAction::Usage { .. }));
    assert!(matches!(parse_args(&args(&["--aot-train", "/x"])), CliAction::Usage { .. }));
}

#[test]
fn an_unknown_flag_is_a_usage_error_not_a_silent_serve() {
    match parse_args(&args(&["--bogus"])) {
        CliAction::Usage { message } => assert!(message.contains("--bogus"), "{message}"),
        other => panic!("expected a usage error, got {other:?}"),
    }
}

#[test]
fn a_usage_error_names_every_argument() {
    assert_eq!(
        parse_args(&args(&["a", "b"])),
        CliAction::Usage { message: "unknown arguments: a b".to_string() }
    );
}

#[test]
fn doctor_dir_is_absolutized_against_the_cwd_and_normalized() {
    let cwd = "/home/u/ws";
    assert_eq!(resolve_doctor_dir(".", cwd), "/home/u/ws");
    assert_eq!(resolve_doctor_dir("../other/./sub", cwd), "/home/u/other/sub");
}

#[test]
fn doctor_dir_absolute_input_is_only_normalized() {
    assert_eq!(resolve_doctor_dir("/srv/a/../b", "/ignored"), "/srv/b");
}

#[test]
fn version_line_is_name_and_version() {
    assert_eq!(version_line(), "scala3-bsp-semantic-ls 0.1.0");
}
