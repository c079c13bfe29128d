use stytsch::fzf::{
    result_line,
    choose_backend, dedup_commands, interpret_fzf_output, location_from_output, location_from_text,
    parse_fzf_output, uses_fzf, FzfResult, SearchBackend,
};
use stytsch::schema::History;

fn entry(cmd: &str, ts: i64) -> History {
    History {
        id: format!("id-{ts}"),
        timestamp: ts,
        duration: 100_000_000,
        exit: 0,
        command: cmd.to_string(),
        cwd: r"C:\".to_string(),
        session: "test-session".to_string(),
        hostname: "test-host".to_string(),
        deleted_at: None,
    }
}

#[test]
fn dedup_keeps_most_recent_first_occurrence() {
    let entries = vec![entry("git status", 5), entry("cargo build", 4), entry("git status", 3), entry("ls", 2), entry("cargo build", 1)];
    assert_eq!(dedup_commands(&entries), vec!["git status", "cargo build", "ls"]);
    assert!(dedup_commands(&Vec::new()).is_empty());
}

#[test]
fn enter_runs_the_selected_line() {
    match interpret_fzf_output(Some(0), "car\n\ncargo build\n") {
        FzfResult::Execute(c) => assert_eq!(c, "cargo build"),
        _ => panic!("expected Execute"),
    }
}

#[test]
fn tab_edits_the_selected_line() {
    match interpret_fzf_output(Some(0), "car\ntab\ncargo build\n") {
        FzfResult::Edit(c) => assert_eq!(c, "cargo build"),
        _ => panic!("expected Edit"),
    }
}

#[test]
fn typed_query_runs_when_nothing_matched() {
    match interpret_fzf_output(Some(1), "  dir /s  \n\n") {
        FzfResult::Execute(c) => assert_eq!(c, "dir /s"),
        _ => panic!("expected Execute"),
    }
}

#[test]
fn esc_error_and_empty_output_cancel() {
    assert!(matches!(interpret_fzf_output(Some(130), "x\n\ny\n"), FzfResult::Cancelled));
    assert!(matches!(interpret_fzf_output(Some(2), "x\n\ny\n"), FzfResult::Cancelled));
    assert!(matches!(interpret_fzf_output(None, "x\n\ny\n"), FzfResult::Cancelled));
    assert!(matches!(interpret_fzf_output(Some(0), "\n\n\n"), FzfResult::Cancelled));
    assert!(matches!(interpret_fzf_output(Some(1), ""), FzfResult::Cancelled));
}

#[test]
fn raw_output_bytes_are_decoded_lossily() {
    match parse_fzf_output(Some(0), b"q\ntab\necho \xff ok\r\n") {
        FzfResult::Edit(c) => assert_eq!(c, "echo \u{FFFD} ok"),
        _ => panic!("expected Edit"),
    }
    match parse_fzf_output(Some(0), "q\n\ncafé\n".as_bytes()) {
        FzfResult::Execute(c) => assert_eq!(c, "café"),
        _ => panic!("expected Execute"),
    }
}

#[test]
fn where_output_gives_the_first_location() {
    assert_eq!(
        location_from_text("  C:\\tools\\fzf.exe\r\nC:\\other\\fzf.exe\r\n").as_deref(),
        Some("C:\\tools\\fzf.exe")
    );
    assert_eq!(location_from_text("   \n"), None);
    assert_eq!(location_from_output(b"/usr/bin/fzf\n").as_deref(), Some("/usr/bin/fzf"));
}

#[test]
fn backend_follows_flag_and_mode() {
    assert_eq!(choose_backend(true, "fuzzy"), SearchBackend::Fzf);
    assert_eq!(choose_backend(false, "fzf"), SearchBackend::Fzf);
    assert_eq!(choose_backend(false, "auto"), SearchBackend::FzfIfInstalled);
    assert_eq!(choose_backend(false, "fuzzy"), SearchBackend::Builtin);
    assert!(uses_fzf(SearchBackend::FzfIfInstalled, true));
    assert!(!uses_fzf(SearchBackend::FzfIfInstalled, false));
    assert!(!uses_fzf(SearchBackend::Builtin, true));
}

#[test]
fn plugin_lines_say_run_or_edit() {
    assert_eq!(result_line(&FzfResult::Execute("dir".to_string())).as_deref(), Some("EXEC:dir"));
    assert_eq!(result_line(&FzfResult::Edit("git log".to_string())).as_deref(), Some("EDIT:git log"));
    assert_eq!(result_line(&FzfResult::Cancelled), None);
}
