//! The built-in search picker as a state machine: a key press and the
//! current state give the next state and what the caller must do.
use vstd::prelude::*;

verus! {

/// Number of bytes of the UTF-8 encoding of `c`.
pub open spec fn utf8_width(c: char) -> nat {
    let u = c as u32;
    if u <= 0x7F {
        1
    } else if u <= 0x7FF {
        2
    } else if u <= 0xFFFF {
        3
    } else {
        4
    }
}

/// Number of bytes of the UTF-8 encoding of `s`, which is what
/// `String::len` reports.
pub open spec fn byte_len(s: Seq<char>) -> nat
    decreases s.len(),
{
    if s.len() == 0 {
        0
    } else {
        utf8_width(s[0]) + byte_len(s.drop_first())
    }
}

/// Byte offset `b` of `s` falls between two characters (or at an end).
pub open spec fn on_boundary(s: Seq<char>, b: int) -> bool {
    exists|k: int| 0 <= k <= s.len() && byte_len(s.take(k)) == b
}

/// A character of `s` starts at byte offset `b`.
pub open spec fn char_starts_at(s: Seq<char>, b: int) -> bool {
    exists|k: int| 0 <= k < s.len() && byte_len(s.take(k)) == b
}

pub proof fn lemma_byte_len_concat(a: Seq<char>, b: Seq<char>)
    ensures
        byte_len(a + b) == byte_len(a) + byte_len(b),
    decreases a.len(),
{
    if a.len() > 0 {
        assert((a + b).drop_first() =~= a.drop_first() + b);
        lemma_byte_len_concat(a.drop_first(), b);
    } else {
        assert(a + b =~= b);
    }
}

pub proof fn lemma_byte_len_step(s: Seq<char>, k: int)
    requires
        0 <= k < s.len(),
    ensures
        byte_len(s.take(k + 1)) == byte_len(s.take(k)) + utf8_width(s[k]),
{
    let one = seq![s[k]];
    assert(s.take(k + 1) =~= s.take(k) + one);
    lemma_byte_len_concat(s.take(k), one);
    assert(one.drop_first() =~= Seq::<char>::empty());
    assert(byte_len(one.drop_first()) == 0);
    assert(byte_len(one) == utf8_width(s[k]));
}

/// Byte offsets of prefixes grow strictly with the prefix.
pub proof fn lemma_byte_len_strict(s: Seq<char>, i: int, j: int)
    requires
        0 <= i < j <= s.len(),
    ensures
        byte_len(s.take(i)) < byte_len(s.take(j)),
    decreases j - i,
{
    lemma_byte_len_step(s, j - 1);
    if i < j - 1 {
        lemma_byte_len_strict(s, i, j - 1);
    }
}

pub proof fn lemma_byte_len_utf8(s: Seq<char>)
    ensures
        byte_len(s) == vstd::utf8::encode_utf8(s).len(),
    decreases s.len(),
{
    if s.len() > 0 {
        let c = s[0];
        vstd::utf8::char_is_scalar(c);
        assert(vstd::utf8::encode_scalar(c as u32).len() == utf8_width(c));
        lemma_byte_len_utf8(s.drop_first());
    }
}

/// Bytes in the UTF-8 encoding of `c`.
pub fn utf8_width_of(c: char) -> (w: usize)
    ensures
        w == utf8_width(c),
{
    let u = c as u32;
    if u <= 0x7F {
        1
    } else if u <= 0x7FF {
        2
    } else if u <= 0xFFFF {
        3
    } else {
        4
    }
}

/// A key press, as far as the picker tells keys apart.
#[derive(Debug, Clone, Copy, PartialEq, Eq, Structural)]
pub enum PickerKey {
    Esc,
    Enter,
    Tab,
    Up,
    Down,
    /// A character key, with whether Control was held.
    Char { c: char, ctrl: bool },
    Backspace,
    Left,
    Right,
    /// Any key the picker ignores.
    Other,
}

/// What the caller does after a key press.
#[derive(Debug, Clone, Copy, PartialEq, Eq, Structural)]
pub enum PickerAction {
    /// Draw again; nothing else changed.
    Stay,
    /// The query changed: search again and draw.
    Refresh,
    /// Close the picker without choosing anything.
    Cancel,
    /// Close the picker choosing the result at `row`, or, when `row` is
    /// `None`, the typed query; `edit` says whether the choice is put on
    /// the command line for editing instead of being run.
    Accept { row: Option<usize>, edit: bool },
}

/// The highlighted row, when there is a result there.
pub open spec fn chosen_row(st: PickerView, n: int) -> Option<usize> {
    if st.selected < n {
        Some(st.selected as usize)
    } else {
        None
    }
}

/// The typed query, the cursor (a byte offset into the query's UTF-8
/// encoding, moved one byte per key) and the highlighted row.
pub struct PickerState {
    pub input: Vec<char>,
    pub cursor: usize,
    pub selected: usize,
}

/// The mathematical value of a `PickerState`.
pub struct PickerView {
    pub input: Seq<char>,
    pub cursor: int,
    pub selected: int,
}

impl View for PickerState {
    type V = PickerView;

    open spec fn view(&self) -> PickerView {
        PickerView { input: self.input@, cursor: self.cursor as int, selected: self.selected as int }
    }
}

/// A state that can occur with `n` results listed: the cursor within the
/// query, the highlighted row on a result (or the first row), and room to
/// type one more character.
pub open spec fn well_formed(st: PickerView, n: int) -> bool {
    &&& 0 <= st.cursor <= byte_len(st.input)
    &&& byte_len(st.input) + 4 <= usize::MAX
    &&& (st.selected == 0 || 0 <= st.selected < n)
}

/// The keys on which the picker's text editing does not fail: typing
/// needs the cursor between two characters, and deleting needs a
/// character to start just before the cursor.
pub open spec fn key_allowed(st: PickerView, key: PickerKey) -> bool {
    match key {
        PickerKey::Char { c, ctrl } => (ctrl && c == 'c') || on_boundary(st.input, st.cursor),
        PickerKey::Backspace => st.cursor > 0 ==> char_starts_at(st.input, st.cursor - 1),
        _ => true,
    }
}

/// The character index of byte offset `b` of `s`.
pub open spec fn char_index_of(s: Seq<char>, b: int) -> int {
    choose|k: int| 0 <= k <= s.len() && byte_len(s.take(k)) == b
}

/// The state after `key`, and what the caller must do, with `n` results
/// listed. Esc and Ctrl+C close with nothing; Enter chooses the
/// highlighted result (or, with nothing listed, the typed query) to run it,
/// and Tab chooses it to edit it; Up and Down move the highlight
/// within the results; a character is inserted at the cursor; Backspace
/// deletes the character before the cursor; Left and Right move the cursor
/// by one byte within the query. Editing the query moves the highlight to
/// the first row and asks for a new search.
pub open spec fn picker_step(st: PickerView, key: PickerKey, n: int) -> (PickerView, PickerAction) {
    match key {
        PickerKey::Esc => (st, PickerAction::Cancel),
        PickerKey::Enter => (st, PickerAction::Accept { row: chosen_row(st, n), edit: false }),
        PickerKey::Tab => (st, PickerAction::Accept { row: chosen_row(st, n), edit: true }),
        PickerKey::Up => (
            PickerView { selected: if st.selected > 0 { st.selected - 1 } else { 0 }, ..st },
            PickerAction::Stay,
        ),
        PickerKey::Down => (
            PickerView { selected: if st.selected + 1 < n { st.selected + 1 } else { st.selected }, ..st },
            PickerAction::Stay,
        ),
        PickerKey::Char { c, ctrl } => if ctrl && c == 'c' {
            (st, PickerAction::Cancel)
        } else {
            (
                PickerView {
                    input: st.input.insert(char_index_of(st.input, st.cursor), c),
                    cursor: st.cursor + 1,
                    selected: 0,
                },
                PickerAction::Refresh,
            )
        },
        PickerKey::Backspace => if st.cursor > 0 {
            (
                PickerView {
                    input: st.input.remove(char_index_of(st.input, st.cursor - 1)),
                    cursor: st.cursor - 1,
                    selected: 0,
                },
                PickerAction::Refresh,
            )
        } else {
            (st, PickerAction::Stay)
        },
        PickerKey::Left => (
            PickerView { cursor: if st.cursor > 0 { st.cursor - 1 } else { 0 }, ..st },
            PickerAction::Stay,
        ),
        PickerKey::Right => (
            PickerView { cursor: if st.cursor < byte_len(st.input) { st.cursor + 1 } else { st.cursor }, ..st },
            PickerAction::Stay,
        ),
        PickerKey::Other => (st, PickerAction::Stay),
    }
}

/// Finds the character index where byte offset `b` of `s` falls, if a
/// character boundary is there.
pub(crate) fn find_char_index(s: &Vec<char>, b: usize) -> (r: Option<usize>)
    requires
        byte_len(s@) <= usize::MAX,
    ensures
        r matches Some(k) ==> k <= s@.len() && byte_len(s@.take(k as int)) == b,
        r is None ==> !on_boundary(s@, b as int),
{
    let n = s.len();
    let mut k: usize = 0;
    let mut off: usize = 0;
    proof {
        assert(s@.take(0) =~= Seq::<char>::empty());
    }
    while k < n && off < b
        invariant
            n == s.len(),
            k <= n,
            off == byte_len(s@.take(k as int)),
            byte_len(s@) <= usize::MAX,
            forall|j: int| 0 <= j < k ==> byte_len(s@.take(j)) < b,
        decreases n - k,
    {
        proof {
            lemma_byte_len_step(s@, k as int);
            if k + 1 < n {
                lemma_byte_len_strict(s@, k + 1, n as int);
            }
            assert(s@.take(n as int) =~= s@);
        }
        off = off + utf8_width_of(s[k]);
        k += 1;
    }
    if off == b {
        Some(k)
    } else {
        proof {
            assert forall|j: int| 0 <= j <= s@.len() implies byte_len(s@.take(j)) != b by {
                if j < k {
                } else if j > k {
                    lemma_byte_len_strict(s@, k as int, j);
                }
            }
        }
        None
    }
}

} // verus!

verus! {

/// Bytes in the UTF-8 encoding of `s`.
fn byte_len_of(s: &Vec<char>) -> (r: usize)
    requires
        byte_len(s@) <= usize::MAX,
    ensures
        r == byte_len(s@),
{
    let n = s.len();
    let mut k: usize = 0;
    let mut off: usize = 0;
    proof {
        assert(s@.take(0) =~= Seq::<char>::empty());
    }
    while k < n
        invariant
            n == s.len(),
            k <= n,
            off == byte_len(s@.take(k as int)),
            byte_len(s@) <= usize::MAX,
        decreases n - k,
    {
        proof {
            lemma_byte_len_step(s@, k as int);
            if k + 1 < n {
                lemma_byte_len_strict(s@, k + 1, n as int);
            }
            assert(s@.take(n as int) =~= s@);
        }
        off = off + utf8_width_of(s[k]);
        k += 1;
    }
    assert(s@.take(n as int) =~= s@);
    off
}

/// Two character indices at the same byte offset are the same.
pub proof fn lemma_boundary_unique(s: Seq<char>, i: int, j: int)
    requires
        0 <= i <= s.len(),
        0 <= j <= s.len(),
        byte_len(s.take(i)) == byte_len(s.take(j)),
    ensures
        i == j,
{
    if i < j {
        lemma_byte_len_strict(s, i, j);
    } else if j < i {
        lemma_byte_len_strict(s, j, i);
    }
}

impl PickerState {
    /// The picker as it opens: the initial query typed, the cursor after
    /// it, the first row highlighted.
    pub fn new(initial: Option<&str>) -> (st: PickerState)
        requires
            initial matches Some(q) ==> byte_len(q@) <= usize::MAX,
        ensures
            st@.input == (match initial {
                Some(q) => q@,
                None => Seq::<char>::empty(),
            }),
            st@.cursor == byte_len(st@.input),
            st@.selected == 0,
    {
        match initial {
            Some(q) => {
                let input = crate::text::chars_of(q);
                let cursor = q.len();
                proof {
                    lemma_byte_len_utf8(q@);
                }
                PickerState { input, cursor, selected: 0 }
            },
            None => PickerState { input: Vec::new(), cursor: 0, selected: 0 },
        }
    }

    /// The typed query.
    pub fn query(&self) -> (q: String)
        ensures
            q@ == self@.input,
    {
        crate::text::string_of(self.input.as_slice())
    }

    /// Whether `key` can be applied without the text editing failing.
    pub fn allows(&self, key: PickerKey) -> (b: bool)
        requires
            byte_len(self@.input) <= usize::MAX,
        ensures
            b == key_allowed(self@, key),
    {
        match key {
            PickerKey::Char { c, ctrl } => {
                if ctrl && c == 'c' {
                    true
                } else {
                    find_char_index(&self.input, self.cursor).is_some()
                }
            },
            PickerKey::Backspace => {
                if self.cursor > 0 {
                    match find_char_index(&self.input, self.cursor - 1) {
                        Some(k) => {
                            proof {
                                if k == self.input@.len() {
                                    assert forall|j: int| 0 <= j < self.input@.len() implies byte_len(self.input@.take(j)) != self.cursor - 1 by {
                                        if byte_len(self.input@.take(j)) == self.cursor - 1 {
                                            lemma_boundary_unique(self.input@, j, k as int);
                                        }
                                    }
                                }
                            }
                            k < self.input.len()
                        },
                        None => false,
                    }
                } else {
                    true
                }
            },
            _ => true,
        }
    }

    /// Applies `key` with `n` results listed, and says what to do next.
    pub fn step(&mut self, key: PickerKey, n: usize) -> (a: PickerAction)
        requires
            well_formed(old(self)@, n as int),
            key_allowed(old(self)@, key),
        ensures
            (final(self)@, a) == picker_step(old(self)@, key, n as int),
    {
        match key {
            PickerKey::Esc => PickerAction::Cancel,
            PickerKey::Enter | PickerKey::Tab => {
                let row = if self.selected < n {
                    Some(self.selected)
                } else {
                    None
                };
                PickerAction::Accept { row, edit: key == PickerKey::Tab }
            },
            PickerKey::Up => {
                if self.selected > 0 {
                    self.selected = self.selected - 1;
                }
                PickerAction::Stay
            },
            PickerKey::Down => {
                if self.selected + 1 < n {
                    self.selected = self.selected + 1;
                }
                PickerAction::Stay
            },
            PickerKey::Char { c, ctrl } => {
                if ctrl && c == 'c' {
                    return PickerAction::Cancel;
                }
                let ghost s = self.input@;
                let k = find_char_index(&self.input, self.cursor).unwrap();
                proof {
                    let k2 = char_index_of(s, self.cursor as int);
                    lemma_boundary_unique(s, k as int, k2);
                }
                self.input.insert(k, c);
                self.cursor = self.cursor + 1;
                self.selected = 0;
                PickerAction::Refresh
            },
            PickerKey::Backspace => {
                if self.cursor == 0 {
                    return PickerAction::Stay;
                }
                let ghost s = self.input@;
                let k = find_char_index(&self.input, self.cursor - 1).unwrap();
                proof {
                    let k2 = char_index_of(s, self.cursor - 1);
                    lemma_boundary_unique(s, k as int, k2);
                    let k3 = choose|k3: int| 0 <= k3 < s.len() && byte_len(s.take(k3)) == self.cursor - 1;
                    lemma_boundary_unique(s, k as int, k3);
                }
                self.cursor = self.cursor - 1;
                self.input.remove(k);
                self.selected = 0;
                PickerAction::Refresh
            },
            PickerKey::Left => {
                if self.cursor > 0 {
                    self.cursor = self.cursor - 1;
                }
                PickerAction::Stay
            },
            PickerKey::Right => {
                if self.cursor < byte_len_of(&self.input) {
                    self.cursor = self.cursor + 1;
                }
                PickerAction::Stay
            },
            PickerKey::Other => PickerAction::Stay,
        }
    }
}

} // verus!

verus! {

proof fn lemma_byte_len_take_skip(s: Seq<char>, k: int)
    requires
        0 <= k <= s.len(),
    ensures
        byte_len(s) == byte_len(s.take(k)) + byte_len(s.skip(k)),
{
    assert(s =~= s.take(k) + s.skip(k));
    lemma_byte_len_concat(s.take(k), s.skip(k));
}

/// Every key keeps the picker usable: the cursor stays within the query,
/// the highlight stays on a listed result (or the first row), a chosen
/// row is a listed result, and the query changes exactly when a new
/// search is asked for, which starts again at the first row.
pub proof fn picker_stays_in_range(st: PickerView, key: PickerKey, n: int)
    requires
        well_formed(st, n),
        key_allowed(st, key),
    ensures
        0 <= picker_step(st, key, n).0.cursor <= byte_len(picker_step(st, key, n).0.input),
        picker_step(st, key, n).0.selected == 0 || 0 <= picker_step(st, key, n).0.selected < n,
        picker_step(st, key, n).1 matches PickerAction::Accept { row: Some(i), .. } ==> i < n,
        picker_step(st, key, n).1 == PickerAction::Refresh ==> picker_step(st, key, n).0.input != st.input
            && picker_step(st, key, n).0.selected == 0,
        picker_step(st, key, n).1 != PickerAction::Refresh ==> picker_step(st, key, n).0.input == st.input,
{
    let s = st.input;
    match key {
        PickerKey::Char { c, ctrl } => {
            if !(ctrl && c == 'c') {
                let k = char_index_of(s, st.cursor);
                let t = s.insert(k, c);
                assert(t =~= s.take(k) + (seq![c] + s.skip(k)));
                lemma_byte_len_concat(s.take(k), seq![c] + s.skip(k));
                lemma_byte_len_concat(seq![c], s.skip(k));
                let one = seq![c];
                assert(one.drop_first() =~= Seq::<char>::empty());
                assert(byte_len(one.drop_first()) == 0);
                assert(byte_len(one) == utf8_width(c));
                assert(t.len() == s.len() + 1);
            }
        },
        PickerKey::Backspace => {
            if st.cursor > 0 {
                let k = char_index_of(s, st.cursor - 1);
                let k3 = choose|k3: int| 0 <= k3 < s.len() && byte_len(s.take(k3)) == st.cursor - 1;
                lemma_boundary_unique(s, k, k3);
                let t = s.remove(k);
                assert(t =~= s.take(k) + s.skip(k + 1));
                lemma_byte_len_concat(s.take(k), s.skip(k + 1));
                assert(t.len() == s.len() - 1);
            }
        },
        _ => {},
    }
}

} // verus!

verus! {

/// Backspace right after typing a character takes it back: the query and
/// the cursor are as before, and the highlight is on the first row.
pub proof fn backspace_undoes_typing(st: PickerView, c: char, n: int)
    requires
        well_formed(st, n),
        key_allowed(st, PickerKey::Char { c, ctrl: false }),
    ensures
        key_allowed(picker_step(st, PickerKey::Char { c, ctrl: false }, n).0, PickerKey::Backspace),
        picker_step(picker_step(st, PickerKey::Char { c, ctrl: false }, n).0, PickerKey::Backspace, n).0 == (
        PickerView { selected: 0, ..st }),
{
    let s = st.input;
    let k = char_index_of(s, st.cursor);
    let t = s.insert(k, c);
    assert(t.take(k) =~= s.take(k));
    let typed = picker_step(st, PickerKey::Char { c, ctrl: false }, n).0;
    assert(typed.input == t);
    assert(typed.cursor == st.cursor + 1);
    assert(char_starts_at(t, typed.cursor - 1)) by {
        assert(0 <= k < t.len() && byte_len(t.take(k)) == typed.cursor - 1);
    }
    let k2 = char_index_of(t, typed.cursor - 1);
    lemma_boundary_unique(t, k, k2);
    assert(t.remove(k) =~= s);
}

} // verus!

verus! {

/// The line handed back to the shell plugin when the picker closes on a
/// choice: `EXEC:` to run it (Enter) or `EDIT:` to edit it (Tab), then the
/// chosen row's command, or, with no row chosen, the typed query trimmed;
/// nothing when no row is chosen and the query is blank.
pub open spec fn spec_choice_line(
    rows: Seq<crate::ranking::ScoredView>,
    row: Option<usize>,
    edit: bool,
    query: Seq<char>,
) -> Option<Seq<char>> {
    let prefix = if edit {
        seq!['E', 'D', 'I', 'T', ':']
    } else {
        seq!['E', 'X', 'E', 'C', ':']
    };
    match row {
        Some(i) => Some(prefix + rows[i as int].history.command@),
        None => if crate::text::trimmed(query).len() == 0 {
            None
        } else {
            Some(prefix + crate::text::trimmed(query))
        },
    }
}

/// The line printed for the shell plugin when the picker closes with
/// `PickerAction::Accept { row, edit }` over `rows` and the typed `query`.
pub fn choice_line(rows: &Vec<crate::ranking::ScoredEntry>, row: Option<usize>, edit: bool, query: &str) -> (l:
    Option<String>)
    requires
        row matches Some(i) ==> i < rows.len(),
    ensures
        match l {
            Some(t) => spec_choice_line(crate::ranking::scored_views(rows@), row, edit, query@) == Some(t@),
            None => spec_choice_line(crate::ranking::scored_views(rows@), row, edit, query@) is None,
        },
{
    let prefix = if edit {
        "EDIT:"
    } else {
        "EXEC:"
    };
    proof {
        reveal_strlit("EDIT:");
        reveal_strlit("EXEC:");
        assert("EDIT:"@ =~= seq!['E', 'D', 'I', 'T', ':']);
        assert("EXEC:"@ =~= seq!['E', 'X', 'E', 'C', ':']);
    }
    match row {
        Some(i) => {
            assert(crate::ranking::scored_views(rows@)[i as int] == rows@[i as int]@);
            Some(crate::fzf::prefixed(prefix, &rows[i].history.command))
        },
        None => {
            let chars = crate::text::chars_of(query);
            let t = crate::text::trim_chars(&chars);
            if t.len() == 0 {
                None
            } else {
                let text = crate::text::string_of(t.as_slice());
                Some(crate::fzf::prefixed(prefix, &text))
            }
        },
    }
}

/// Enter runs and Tab edits: a choice made with Enter is handed back as a
/// command to run, one made with Tab as a command to edit, and what is
/// handed back is the highlighted result's command, or the typed query
/// when nothing is listed.
pub proof fn enter_runs_tab_edits(st: PickerView, n: int, rows: Seq<crate::ranking::ScoredView>)
    requires
        well_formed(st, n),
        rows.len() == n,
    ensures
        picker_step(st, PickerKey::Enter, n).1 == (PickerAction::Accept { row: chosen_row(st, n), edit: false }),
        picker_step(st, PickerKey::Tab, n).1 == (PickerAction::Accept { row: chosen_row(st, n), edit: true }),
        chosen_row(st, n) matches Some(i) ==> spec_choice_line(rows, Some(i), false, st.input) == Some(
            seq!['E', 'X', 'E', 'C', ':'] + rows[i as int].history.command@,
        ) && spec_choice_line(rows, Some(i), true, st.input) == Some(
            seq!['E', 'D', 'I', 'T', ':'] + rows[i as int].history.command@,
        ),
        n == 0 && crate::text::trimmed(st.input).len() > 0 ==> chosen_row(st, n) is None && spec_choice_line(
            rows,
            None,
            false,
            st.input,
        ) == Some(seq!['E', 'X', 'E', 'C', ':'] + crate::text::trimmed(st.input)),
{
}

} // verus!

verus! {

/// Up and Down move the highlight by one row within the listed results and
/// change nothing else: Up goes one row up unless on the first row, Down
/// one row down unless on the last result; a Down that moved is undone by
/// Up, and Enter after Up chooses the row above the one left.
pub proof fn arrows_move_the_highlight(st: PickerView, n: int)
    requires
        0 <= st.selected,
    ensures
        picker_step(st, PickerKey::Up, n).1 == PickerAction::Stay,
        picker_step(st, PickerKey::Down, n).1 == PickerAction::Stay,
        picker_step(st, PickerKey::Up, n).0.input == st.input,
        picker_step(st, PickerKey::Up, n).0.cursor == st.cursor,
        picker_step(st, PickerKey::Down, n).0.input == st.input,
        picker_step(st, PickerKey::Down, n).0.cursor == st.cursor,
        st.selected > 0 ==> picker_step(st, PickerKey::Up, n).0.selected + 1 == st.selected,
        st.selected == 0 ==> picker_step(st, PickerKey::Up, n).0.selected == 0,
        st.selected + 1 < n ==> picker_step(st, PickerKey::Down, n).0.selected == st.selected + 1,
        st.selected + 1 >= n ==> picker_step(st, PickerKey::Down, n).0.selected == st.selected,
        st.selected + 1 < n ==> picker_step(picker_step(st, PickerKey::Down, n).0, PickerKey::Up, n).0 == st,
        0 < st.selected <= n ==> picker_step(picker_step(st, PickerKey::Up, n).0, PickerKey::Enter, n).1
            == (PickerAction::Accept { row: Some((st.selected - 1) as usize), edit: false }),
{
}

} // verus!

verus! {

/// The keys that close the picker leave it as it was: Esc and Ctrl+C
/// close it choosing nothing; Enter and Tab choose the highlighted row
/// when a result is listed there, and the typed query when nothing is
/// listed.
pub proof fn closing_keys_choose_the_highlight(st: PickerView, n: int)
    requires
        0 <= st.selected,
        0 <= n,
    ensures
        picker_step(st, PickerKey::Esc, n) == (st, PickerAction::Cancel),
        picker_step(st, PickerKey::Char { c: 'c', ctrl: true }, n) == (st, PickerAction::Cancel),
        picker_step(st, PickerKey::Enter, n).0 == st,
        picker_step(st, PickerKey::Tab, n).0 == st,
        st.selected < n ==> picker_step(st, PickerKey::Enter, n).1 == (PickerAction::Accept {
            row: Some(st.selected as usize),
            edit: false,
        }),
        st.selected < n ==> picker_step(st, PickerKey::Tab, n).1 == (PickerAction::Accept {
            row: Some(st.selected as usize),
            edit: true,
        }),
        n == 0 ==> picker_step(st, PickerKey::Enter, n).1 == (PickerAction::Accept { row: None, edit: false }),
        n == 0 ==> picker_step(st, PickerKey::Tab, n).1 == (PickerAction::Accept { row: None, edit: true }),
{
}

/// A typed character goes in at the cursor: the query becomes the text
/// before the cursor, the character, and the text after the cursor; the
/// cursor moves one step right, the highlight goes back to the first row,
/// and a new search is asked for.
pub proof fn typing_inserts_at_the_cursor(st: PickerView, c: char, n: int)
    requires
        well_formed(st, n),
        key_allowed(st, PickerKey::Char { c, ctrl: false }),
    ensures
        exists|k: int|
            0 <= k <= st.input.len() && byte_len(st.input.take(k)) == st.cursor && #[trigger] picker_step(
                st,
                PickerKey::Char { c, ctrl: false },
                n,
            ).0.input == st.input.take(k) + seq![c] + st.input.skip(k),
        picker_step(st, PickerKey::Char { c, ctrl: false }, n).0.cursor == st.cursor + 1,
        picker_step(st, PickerKey::Char { c, ctrl: false }, n).0.selected == 0,
        picker_step(st, PickerKey::Char { c, ctrl: false }, n).1 == PickerAction::Refresh,
{
    let k = char_index_of(st.input, st.cursor);
    assert(0 <= k <= st.input.len() && byte_len(st.input.take(k)) == st.cursor);
    assert(st.input.insert(k, c) =~= st.input.take(k) + seq![c] + st.input.skip(k));
}

} // verus!
