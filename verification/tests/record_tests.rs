use stytsch::record::{build_history_entry, command_source, new_history_entry, RecordError};

fn is_uuid_v4(s: &str) -> bool {
    let b: Vec<char> = s.chars().collect();
    b.len() == 36
        && b.iter().enumerate().all(|(i, c)| {
            if [8, 13, 18, 23].contains(&i) {
                *c == '-'
            } else {
                c.is_ascii_digit() || ('a'..='f').contains(c)
            }
        })
        && b[14] == '4'
        && "89ab".contains(b[19])
}

#[test]
fn file_text_wins_over_command() {
    assert_eq!(command_source(Some("a".into()), Some("b".into())), Ok("b".to_string()));
    assert_eq!(command_source(Some("a".into()), None), Ok("a".to_string()));
    let e = command_source(None, None).unwrap_err();
    assert_eq!(e, RecordError::MissingCommand);
    assert_eq!(e.message(), "Either --command or --file must be provided");
}

#[test]
fn entry_starts_duration_before_now() {
    let h = build_history_entry(
        "make".to_string(),
        None,
        2,
        3,
        10_000_000_000,
        "id".to_string(),
        "sess".to_string(),
        "host".to_string(),
    );
    assert_eq!(h.duration, 3_000_000_000);
    assert_eq!(h.timestamp, 7_000_000_000);
    assert_eq!(h.cwd, ".");
    assert_eq!(h.exit, 2);
    assert_eq!(h.command, "make");
    assert!(h.deleted_at.is_none());
}

#[test]
fn whitespace_only_commands_are_not_recorded() {
    assert!(new_history_entry("   \t\n", None, 0, 0, 0, None).is_none());
    assert!(new_history_entry("", None, 0, 0, 0, None).is_none());
}

#[test]
fn recorded_entry_is_trimmed_and_gets_fresh_ids() {
    let h = new_history_entry("  echo hi \n", Some(r"C:\".to_string()), 1, 0, 42, None).unwrap();
    assert_eq!(h.command, "echo hi");
    assert_eq!(h.cwd, r"C:\");
    assert_eq!(h.timestamp, 42);
    assert!(is_uuid_v4(&h.id));
    assert!(is_uuid_v4(&h.session));
    assert_ne!(h.id, h.session);
    assert!(!h.hostname.is_empty());
    let h2 = new_history_entry("dir", None, 0, 0, 0, Some("abc".to_string())).unwrap();
    assert_eq!(h2.session, "abc");
    assert_ne!(h2.id, h.id);
}

#[test]
fn blank_commands_are_recognised() {
    assert!(stytsch::record::is_blank_command(" \t\r\n"));
    assert!(!stytsch::record::is_blank_command(" x "));
}

#[test]
fn unreadable_host_name_is_recorded_as_unknown() {
    assert_eq!(stytsch::record::host_or_unknown(None), "unknown");
    assert_eq!(stytsch::record::host_or_unknown(Some("laptop".to_string())), "laptop");
}
