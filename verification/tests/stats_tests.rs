use stytsch::schema::History;
use stytsch::stats::{command_name_of, top_commands};

fn entry(cmd: &str, ts: i64) -> History {
    History {
        id: format!("id-{ts}"),
        timestamp: ts,
        duration: 0,
        exit: 0,
        command: cmd.to_string(),
        cwd: ".".to_string(),
        session: "s".to_string(),
        hostname: "h".to_string(),
        deleted_at: None,
    }
}

#[test]
fn program_name_is_the_first_word() {
    assert_eq!(command_name_of("cargo build --release"), "cargo");
    assert_eq!(command_name_of("  git\tstatus"), "git");
    assert_eq!(command_name_of("dir"), "dir");
    assert_eq!(command_name_of("   "), "   ");
    assert_eq!(command_name_of(""), "");
}

#[test]
fn top_commands_counts_and_orders() {
    let entries = vec![
        entry("git status", 9),
        entry("cargo build", 8),
        entry("git push", 7),
        entry("ls", 6),
        entry("cargo test", 5),
        entry("git log", 4),
        entry("dir", 3),
    ];
    let top = top_commands(&entries, 10);
    let want: Vec<(String, usize)> = vec![
        ("git".to_string(), 3),
        ("cargo".to_string(), 2),
        ("ls".to_string(), 1),
        ("dir".to_string(), 1),
    ];
    assert_eq!(top, want);
    let top2 = top_commands(&entries, 2);
    assert_eq!(top2, want[..2].to_vec());
    assert!(top_commands(&Vec::new(), 10).is_empty());
}
