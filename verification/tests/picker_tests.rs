use stytsch::picker::{choice_line, PickerAction, PickerKey, PickerState};
use stytsch::ranking::ScoredEntry;
use stytsch::schema::History;

fn row(cmd: &str) -> ScoredEntry {
    ScoredEntry {
        history: History {
            id: "i".to_string(),
            timestamp: 0,
            duration: 0,
            exit: 0,
            command: cmd.to_string(),
            cwd: ".".to_string(),
            session: "s".to_string(),
            hostname: "h".to_string(),
            deleted_at: None,
        },
        score: 0,
        positions: Vec::new(),
    }
}

fn typed(st: &mut PickerState, text: &str) {
    for c in text.chars() {
        assert!(st.allows(PickerKey::Char { c, ctrl: false }));
        assert_eq!(st.step(PickerKey::Char { c, ctrl: false }, 0), PickerAction::Refresh);
    }
}

#[test]
fn opens_with_the_initial_query_and_cursor_at_its_end() {
    let st = PickerState::new(Some("git"));
    assert_eq!(st.query(), "git");
    assert_eq!(st.cursor, 3);
    assert_eq!(st.selected, 0);
    let st = PickerState::new(Some("é"));
    assert_eq!(st.cursor, 2);
    let st = PickerState::new(None);
    assert_eq!(st.query(), "");
}

#[test]
fn typing_and_backspace_edit_the_query() {
    let mut st = PickerState::new(None);
    typed(&mut st, "gti");
    assert_eq!(st.query(), "gti");
    assert_eq!(st.step(PickerKey::Left, 3), PickerAction::Stay);
    assert_eq!(st.step(PickerKey::Backspace, 3), PickerAction::Refresh);
    assert_eq!(st.query(), "gi");
    assert_eq!(st.cursor, 1);
    assert_eq!(st.step(PickerKey::Right, 1), PickerAction::Stay);
    assert_eq!(st.cursor, 2);
    typed(&mut st, "t");
    assert_eq!(st.query(), "git");
    assert_eq!(st.cursor, 3);
    assert_eq!(st.step(PickerKey::Right, 1), PickerAction::Stay);
    assert_eq!(st.cursor, 3);
}

#[test]
fn highlight_moves_within_the_results() {
    let mut st = PickerState::new(None);
    assert_eq!(st.step(PickerKey::Up, 3), PickerAction::Stay);
    assert_eq!(st.selected, 0);
    st.step(PickerKey::Down, 3);
    st.step(PickerKey::Down, 3);
    st.step(PickerKey::Down, 3);
    assert_eq!(st.selected, 2);
    assert_eq!(st.step(PickerKey::Enter, 3), PickerAction::Accept { row: Some(2), edit: false });
    typed(&mut st, "x");
    assert_eq!(st.selected, 0);
}

#[test]
fn closing_keys() {
    let mut st = PickerState::new(Some("q"));
    assert_eq!(st.step(PickerKey::Esc, 3), PickerAction::Cancel);
    assert_eq!(st.step(PickerKey::Char { c: 'c', ctrl: true }, 3), PickerAction::Cancel);
    assert_eq!(st.step(PickerKey::Enter, 0), PickerAction::Accept { row: None, edit: false });
    assert_eq!(st.step(PickerKey::Tab, 3), PickerAction::Accept { row: Some(0), edit: true });
    assert_eq!(st.step(PickerKey::Other, 0), PickerAction::Stay);
}

#[test]
fn control_with_another_letter_types_it() {
    let mut st = PickerState::new(None);
    assert_eq!(st.step(PickerKey::Char { c: 'a', ctrl: true }, 0), PickerAction::Refresh);
    assert_eq!(st.query(), "a");
}

#[test]
fn editing_inside_a_wide_character_is_refused() {
    let mut st = PickerState::new(None);
    typed(&mut st, "é");
    assert_eq!(st.cursor, 1);
    assert!(!st.allows(PickerKey::Char { c: 'x', ctrl: false }));
    assert!(st.allows(PickerKey::Backspace));
    assert_eq!(st.step(PickerKey::Backspace, 0), PickerAction::Refresh);
    assert_eq!(st.query(), "");
}

#[test]
fn backspace_takes_back_what_was_typed() {
    let mut st = PickerState::new(Some("cd /tmp"));
    st.step(PickerKey::Left, 0);
    st.step(PickerKey::Left, 0);
    let before = (st.query(), st.cursor);
    assert!(st.allows(PickerKey::Char { c: 'ß', ctrl: false }));
    st.step(PickerKey::Char { c: 'ß', ctrl: false }, 0);
    assert_eq!(st.query(), "cd /tßmp");
    assert!(st.allows(PickerKey::Backspace));
    st.step(PickerKey::Backspace, 0);
    assert_eq!((st.query(), st.cursor), before);
}

#[test]
fn enter_runs_and_tab_edits_the_choice() {
    let rows = vec![row("cargo build"), row("cargo test")];
    assert_eq!(choice_line(&rows, Some(1), false, "car").as_deref(), Some("EXEC:cargo test"));
    assert_eq!(choice_line(&rows, Some(0), true, "car").as_deref(), Some("EDIT:cargo build"));
}

#[test]
fn typed_query_runs_when_nothing_is_listed() {
    let rows: Vec<ScoredEntry> = Vec::new();
    assert_eq!(choice_line(&rows, None, false, "  dir /s ").as_deref(), Some("EXEC:dir /s"));
    assert_eq!(choice_line(&rows, None, true, "dir").as_deref(), Some("EDIT:dir"));
    assert_eq!(choice_line(&rows, None, false, "   "), None);
}
