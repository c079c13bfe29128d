use stytsch::ranking::{highlight_segments, rank_entries, refresh_filter};
use stytsch::schema::History;

fn entry(cmd: &str, ts: i64) -> History {
    History {
        id: format!("id-{ts}"),
        timestamp: ts,
        duration: 0,
        exit: 0,
        command: cmd.to_string(),
        cwd: ".".to_string(),
        session: "s".to_string(),
        hostname: "h".to_string(),
        deleted_at: None,
    }
}

#[test]
fn empty_query_lists_everything_unscored() {
    let r = rank_entries(vec![entry("b", 2), entry("a", 1)], "");
    assert_eq!(r.len(), 2);
    assert_eq!(r[0].history.command, "b");
    assert_eq!(r[1].history.command, "a");
    assert!(r.iter().all(|e| e.score == 0 && e.positions.is_empty()));
}

#[test]
fn query_keeps_matches_best_first() {
    let entries = vec![entry("git status", 4), entry("cargo test", 3), entry("echo cargo", 2), entry("cargo build", 1)];
    let r = rank_entries(entries, "cargo");
    let names: Vec<&str> = r.iter().map(|e| e.history.command.as_str()).collect();
    assert_eq!(names.len(), 3);
    assert!(!names.contains(&"git status"));
    for w in r.windows(2) {
        assert!(w[0].score >= w[1].score);
    }
    for e in &r {
        assert_eq!(e.positions.len(), 5);
    }
    let first = r.iter().find(|e| e.history.command == "cargo test").unwrap();
    assert_eq!(first.positions, vec![0, 1, 2, 3, 4]);
}

#[test]
fn equal_scores_keep_their_order() {
    let r = rank_entries(vec![entry("ls -a", 3), entry("ls -b", 2), entry("ls -c", 1)], "ls");
    let names: Vec<&str> = r.iter().map(|e| e.history.command.as_str()).collect();
    assert_eq!(names, vec!["ls -a", "ls -b", "ls -c"]);
}

#[test]
fn no_match_gives_no_rows() {
    assert!(rank_entries(vec![entry("dir", 1)], "zzz").is_empty());
}

#[test]
fn highlight_splits_at_matched_positions() {
    let segs = highlight_segments("cargo", &[0, 2]);
    let parts: Vec<(&str, bool)> = segs.iter().map(|s| (s.text.as_str(), s.highlighted)).collect();
    assert_eq!(parts, vec![("c", true), ("a", false), ("r", true), ("go", false)]);
    let segs = highlight_segments("héllo", &[]);
    assert_eq!(segs.len(), 1);
    assert_eq!(segs[0].text, "héllo");
    assert!(highlight_segments("", &[0]).is_empty());
}

#[test]
fn refresh_searches_the_typed_query() {
    let f = refresh_filter("");
    assert!(f.query.is_none());
    assert_eq!(f.limit, 500);
    let f = refresh_filter("git");
    assert_eq!(f.query.as_deref(), Some("git"));
}
