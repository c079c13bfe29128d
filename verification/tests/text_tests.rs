use stytsch::text::{chars_of, is_space_char, push_decimal, push_signed_decimal, same_text, split_lines, trim_chars};

fn s(v: &[char]) -> String {
    v.iter().collect()
}

#[test]
fn trimming_drops_unicode_whitespace_at_both_ends() {
    let t = trim_chars(&chars_of("\t  echo hi \u{3000}\n"));
    assert_eq!(s(&t), "echo hi");
    assert_eq!(s(&trim_chars(&chars_of("   "))), "");
    assert!(is_space_char('\u{85}'));
    assert!(!is_space_char('x'));
}

#[test]
fn lines_split_like_str_lines() {
    let text = "foo\r\nbar\n\nbaz\r";
    let got: Vec<String> = split_lines(&chars_of(text)).iter().map(|l| s(l)).collect();
    let want: Vec<String> = text.lines().map(|l| l.to_string()).collect();
    assert_eq!(got, want);
    assert_eq!(split_lines(&chars_of("a\n")).len(), 1);
    assert_eq!(split_lines(&chars_of("")).len(), 0);
}

#[test]
fn decimals_render_like_display() {
    let mut out = Vec::new();
    push_decimal(1_234_567_890, &mut out);
    assert_eq!(s(&out), "1234567890");
    let mut out = Vec::new();
    push_signed_decimal(i64::MIN, &mut out);
    assert_eq!(s(&out), i64::MIN.to_string());
    let mut out = Vec::new();
    push_signed_decimal(0, &mut out);
    assert_eq!(s(&out), "0");
}

#[test]
fn texts_compare_by_characters() {
    assert!(same_text("auto", "auto"));
    assert!(!same_text("auto", "fzf"));
}
