use stytsch::listing::{exit_text, format_relative, format_row, list_filter, shorten_command};

#[test]
fn long_commands_are_cut_at_35_bytes() {
    let long = "a".repeat(40);
    assert_eq!(shorten_command(&long), format!("{}...", "a".repeat(35)));
    let edge = "b".repeat(38);
    assert_eq!(shorten_command(&edge), edge);
    assert_eq!(shorten_command("dir"), "dir");
}

#[test]
fn ages_use_the_largest_whole_unit() {
    let s = 1_000_000_000i64;
    assert_eq!(format_relative(100 * s, 95 * s), "5s");
    assert_eq!(format_relative(10_000 * s, 10_000 * s - 59 * s - 1), "59s");
    assert_eq!(format_relative(10_000 * s, 10_000 * s - 125 * s), "2m");
    assert_eq!(format_relative(100_000 * s, 100_000 * s - 7200 * s), "2h");
    assert_eq!(format_relative(1_000_000 * s, 1_000_000 * s - 3 * 86400 * s), "3d");
    assert_eq!(format_relative(0, 5 * s + 1), "-5s");
}

#[test]
fn listing_filter_selects_directory_and_host() {
    let f = list_filter(25, Some(r"C:\Projects".to_string()), None);
    assert_eq!(f.limit, 25);
    assert_eq!(f.cwd.as_deref(), Some(r"C:\Projects"));
    assert!(f.hostname.is_none() && f.query.is_none() && f.exit.is_none());
    assert_eq!(f.offset, 0);
}

#[test]
fn listing_rows_pad_each_column() {
    let head = format_row("TIME", "DUR", "EXIT", "COMMAND", "CWD");
    assert_eq!(head, format!("{:<8} {:<6} {:<4} {:<40} {}", "TIME", "DUR", "EXIT", "COMMAND", "CWD"));
    let row = format_row("5m", "1.2s", &exit_text(-1), "git status", "/home/ü");
    assert_eq!(row, "5m       1.2s   -1   git status                               /home/ü");
    let wide = format_row("123456789", "x", "0", "é".repeat(41).as_str(), "");
    assert_eq!(wide, format!("123456789 x      0    {} ", "é".repeat(41)));
    assert_eq!(format_row("ü", "", "", "", "d").chars().count(), 8 + 1 + 6 + 1 + 4 + 1 + 40 + 1 + 1);
}

#[test]
fn exit_codes_are_written_in_decimal() {
    assert_eq!(exit_text(0), "0");
    assert_eq!(exit_text(127), "127");
    assert_eq!(exit_text(-2147483648), "-2147483648");
}
