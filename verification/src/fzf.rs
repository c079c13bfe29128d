//! The list handed to fzf and the reading of what fzf printed back.
use vstd::prelude::*;
use crate::schema::History;
use crate::text::{same_text, chars_of, decode_lossy, lossy_utf8, char_rows, distinct_in_order, line_at, lines_of, same_chars, split_lines, string_of, string_views, trim_chars, trimmed};

verus! {

/// The commands of a list of entries, in order.
pub open spec fn commands_of(entries: Seq<History>) -> Seq<Seq<char>> {
    entries.map_values(|h: History| h.command@)
}

/// The commands to offer, most recent first: each distinct command once,
/// where it first occurs in `entries` (which come newest first).
pub fn dedup_commands(entries: &Vec<History>) -> (r: Vec<String>)
    ensures
        string_views(r@) == distinct_in_order(commands_of(entries@)),
{
    let n = entries.len();
    let mut unique: Vec<String> = Vec::new();
    let ghost cmds = commands_of(entries@);
    let mut i: usize = 0;
    while i < n
        invariant
            n == entries.len(),
            i <= n,
            cmds == commands_of(entries@),
            string_views(unique@) == distinct_in_order(cmds.take(i as int)),
        decreases n - i,
    {
        let cmd = &entries[i].command;
        let mut found = false;
        let mut j: usize = 0;
        while j < unique.len()
            invariant
                j <= unique.len(),
                found == exists|k: int| 0 <= k < j && string_views(unique@)[k] == cmd@,
            decreases unique.len() - j,
        {
            assert(string_views(unique@)[j as int] == unique@[j as int]@);
            if unique[j] == *cmd {
                found = true;
            }
            j += 1;
        }
        proof {
            let prev = cmds.take(i as int);
            let next = cmds.take(i + 1);
            assert(next.drop_last() =~= prev);
            assert(next.last() == cmd@);
            let d = distinct_in_order(prev);
            if found {
                let k = choose|k: int| 0 <= k < unique@.len() && string_views(unique@)[k] == cmd@;
                assert(d[k] == cmd@);
            } else {
                assert forall|k: int| 0 <= k < d.len() implies d[k] != cmd@ by {
                    assert(string_views(unique@)[k] == d[k]);
                }
            }
        }
        if !found {
            let ghost before = unique@;
            unique.push(cmd.clone());
            assert(string_views(unique@) =~= string_views(before).push(cmd@));
        }
        i += 1;
    }
    assert(cmds.take(n as int) =~= cmds);
    unique
}

/// What the user chose in fzf.
#[derive(Debug, Clone)]
pub enum FzfResult {
    /// Enter: run the command now.
    Execute(String),
    /// Tab: put the command on the command line for editing.
    Edit(String),
    /// Esc, an error, or nothing to run.
    Cancelled,
}

/// The mathematical value of an `FzfResult`.
pub enum FzfChoice {
    Execute(Seq<char>),
    Edit(Seq<char>),
    Cancelled,
}

impl View for FzfResult {
    type V = FzfChoice;

    open spec fn view(&self) -> FzfChoice {
        match self {
            FzfResult::Execute(c) => FzfChoice::Execute(c@),
            FzfResult::Edit(c) => FzfChoice::Edit(c@),
            FzfResult::Cancelled => FzfChoice::Cancelled,
        }
    }
}

/// Line `n` of `text`, trimmed, or nothing when there is no such line.
pub open spec fn trimmed_line(text: Seq<char>, n: int) -> Seq<char> {
    match line_at(text, n) {
        Some(l) => trimmed(l),
        None => Seq::empty(),
    }
}

/// The exit code that a missing code (a signal) stands for: 130.
pub open spec fn exit_code_or_interrupt(code: Option<i32>) -> i32 {
    match code {
        Some(c) => c,
        None => 130,
    }
}

/// What fzf's exit `code` and printed `text` mean. fzf prints the query,
/// the key that ended the search (empty for Enter) and the selected line;
/// code 130 (Esc, Ctrl+C) and 2 (error) cancel. The selected line is run,
/// else the typed query, else nothing; Tab edits instead of running.
pub open spec fn fzf_outcome(code: Option<i32>, text: Seq<char>) -> FzfChoice {
    let c = exit_code_or_interrupt(code);
    if c == 130 || c == 2 {
        FzfChoice::Cancelled
    } else {
        let query = trimmed_line(text, 0);
        let key = trimmed_line(text, 1);
        let selected = trimmed_line(text, 2);
        if selected.len() == 0 && query.len() == 0 {
            FzfChoice::Cancelled
        } else {
            let command = if selected.len() > 0 {
                selected
            } else {
                query
            };
            if key == seq!['t', 'a', 'b'] {
                FzfChoice::Edit(command)
            } else {
                FzfChoice::Execute(command)
            }
        }
    }
}

fn trimmed_line_of(lines: &Vec<Vec<char>>, n: usize) -> (r: Vec<char>)
    ensures
        r@ == (if n < lines@.len() {
            trimmed(lines@[n as int]@)
        } else {
            Seq::empty()
        }),
{
    if n < lines.len() {
        trim_chars(&lines[n])
    } else {
        Vec::new()
    }
}

/// Reads fzf's exit `code` and the text it printed.
pub fn interpret_fzf_output(code: Option<i32>, text: &str) -> (r: FzfResult)
    ensures
        r@ == fzf_outcome(code, text@),
{
    let c = match code {
        Some(c) => c,
        None => 130,
    };
    if c == 130 || c == 2 {
        return FzfResult::Cancelled;
    }
    let chars = chars_of(text);
    let lines = split_lines(&chars);
    let ghost ls = lines_of(text@);
    assert(char_rows(lines@) == ls);
    let query = trimmed_line_of(&lines, 0);
    let key = trimmed_line_of(&lines, 1);
    let selected = trimmed_line_of(&lines, 2);
    proof {
        if 0 < ls.len() {
            assert(ls[0] == lines@[0]@);
        }
        if 1 < ls.len() {
            assert(ls[1] == lines@[1]@);
        }
        if 2 < ls.len() {
            assert(ls[2] == lines@[2]@);
        }
        assert(query@ == trimmed_line(text@, 0));
        assert(key@ == trimmed_line(text@, 1));
        assert(selected@ == trimmed_line(text@, 2));
    }
    if selected.len() == 0 && query.len() == 0 {
        return FzfResult::Cancelled;
    }
    let command = if selected.len() > 0 {
        string_of(selected.as_slice())
    } else {
        string_of(query.as_slice())
    };
    let mut tab: Vec<char> = Vec::new();
    tab.push('t');
    tab.push('a');
    tab.push('b');
    assert(tab@ =~= seq!['t', 'a', 'b']);
    if same_chars(&key, &tab) {
        FzfResult::Edit(command)
    } else {
        FzfResult::Execute(command)
    }
}

} // verus!

verus! {

/// Reads fzf's exit `code` and the bytes it printed on standard output.
pub fn parse_fzf_output(code: Option<i32>, stdout: &[u8]) -> (r: FzfResult)
    ensures
        r@ == fzf_outcome(code, lossy_utf8(stdout@)),
{
    let text = decode_lossy(stdout);
    interpret_fzf_output(code, text.as_str())
}

/// The first line of the trimmed `text`, which is where a lookup tool
/// prints the first location of a program.
pub open spec fn first_location(text: Seq<char>) -> Option<Seq<char>> {
    line_at(trimmed(text), 0)
}

/// The first location in the text printed by a successful `where fzf`.
pub fn location_from_text(text: &str) -> (r: Option<String>)
    ensures
        match r {
            Some(p) => first_location(text@) == Some(p@),
            None => first_location(text@) is None,
        },
{
    let chars = chars_of(text);
    let t = trim_chars(&chars);
    let lines = split_lines(&t);
    if lines.len() > 0 {
        assert(char_rows(lines@)[0] == lines@[0]@);
        Some(string_of(lines[0].as_slice()))
    } else {
        None
    }
}

/// The first location in the bytes printed by a successful `where fzf`.
pub fn location_from_output(stdout: &[u8]) -> (r: Option<String>)
    ensures
        match r {
            Some(p) => first_location(lossy_utf8(stdout@)) == Some(p@),
            None => first_location(lossy_utf8(stdout@)) is None,
        },
{
    let text = decode_lossy(stdout);
    location_from_text(text.as_str())
}

} // verus!

verus! {

/// Which search interface to open.
#[derive(Debug, Clone, Copy, PartialEq, Eq, Structural)]
pub enum SearchBackend {
    /// fzf.
    Fzf,
    /// The built-in picker.
    Builtin,
    /// fzf if it is installed, else the built-in picker.
    FzfIfInstalled,
}

/// The interface that a forced choice (`--fzf`) and the configured search
/// mode select: fzf when forced or when the mode is `"fzf"`, fzf if
/// installed for `"auto"`, the built-in picker otherwise.
pub open spec fn spec_backend(use_fzf: bool, mode: Seq<char>) -> SearchBackend {
    if use_fzf || mode == seq!['f', 'z', 'f'] {
        SearchBackend::Fzf
    } else if mode == seq!['a', 'u', 't', 'o'] {
        SearchBackend::FzfIfInstalled
    } else {
        SearchBackend::Builtin
    }
}

/// Picks the search interface.
pub fn choose_backend(use_fzf: bool, search_mode: &str) -> (b: SearchBackend)
    ensures
        b == spec_backend(use_fzf, search_mode@),
{
    let fzf = "fzf";
    let auto = "auto";
    proof {
        reveal_strlit("fzf");
        reveal_strlit("auto");
        assert(fzf@ =~= seq!['f', 'z', 'f']);
        assert(auto@ =~= seq!['a', 'u', 't', 'o']);
    }
    if use_fzf || same_text(search_mode, fzf) {
        SearchBackend::Fzf
    } else if same_text(search_mode, auto) {
        SearchBackend::FzfIfInstalled
    } else {
        SearchBackend::Builtin
    }
}

/// Whether fzf is used, once it is known whether fzf is installed.
pub fn uses_fzf(backend: SearchBackend, installed: bool) -> (b: bool)
    ensures
        b == (backend == SearchBackend::Fzf || (backend == SearchBackend::FzfIfInstalled && installed)),
{
    match backend {
        SearchBackend::Fzf => true,
        SearchBackend::Builtin => false,
        SearchBackend::FzfIfInstalled => installed,
    }
}

} // verus!

verus! {

/// The list offered to fzf holds every command of the entries exactly once
/// and nothing else, and starts with the most recent command.
pub proof fn offered_commands_are_distinct_and_complete(entries: Seq<History>)
    ensures
        forall|i: int, j: int|
            0 <= i < j < distinct_in_order(commands_of(entries)).len() ==> distinct_in_order(
                commands_of(entries),
            )[i] != distinct_in_order(commands_of(entries))[j],
        forall|c: Seq<char>|
            commands_of(entries).contains(c) <==> #[trigger] distinct_in_order(commands_of(entries)).contains(c),
        entries.len() > 0 ==> distinct_in_order(commands_of(entries))[0] == entries[0].command@,
{
    crate::text::lemma_distinct_in_order(commands_of(entries));
    if entries.len() > 0 {
        crate::text::lemma_distinct_first(commands_of(entries));
    }
}

/// fzf's answer: Esc or an error never runs anything; otherwise the
/// selected line, or the typed query when no line was selected, is what
/// gets run or edited, and it is edited exactly when Tab ended the search.
pub proof fn fzf_runs_what_was_chosen(code: Option<i32>, text: Seq<char>)
    ensures
        (exit_code_or_interrupt(code) == 130 || exit_code_or_interrupt(code) == 2) ==> fzf_outcome(code, text)
            == FzfChoice::Cancelled,
        fzf_outcome(code, text) matches FzfChoice::Execute(c) ==> c.len() > 0 && (c == trimmed_line(text, 2) || (
        trimmed_line(text, 2).len() == 0 && c == trimmed_line(text, 0))) && trimmed_line(text, 1) != seq![
            't',
            'a',
            'b',
        ],
        fzf_outcome(code, text) matches FzfChoice::Edit(c) ==> c.len() > 0 && (c == trimmed_line(text, 2) || (
        trimmed_line(text, 2).len() == 0 && c == trimmed_line(text, 0))) && trimmed_line(text, 1) == seq![
            't',
            'a',
            'b',
        ],
{
}

} // verus!

verus! {

/// The line handed back to the shell plugin for an fzf result: `EXEC:`
/// and the command to run, `EDIT:` and the command to edit, or nothing.
pub open spec fn spec_result_line(r: FzfChoice) -> Option<Seq<char>> {
    match r {
        FzfChoice::Execute(c) => Some(seq!['E', 'X', 'E', 'C', ':'] + c),
        FzfChoice::Edit(c) => Some(seq!['E', 'D', 'I', 'T', ':'] + c),
        FzfChoice::Cancelled => None,
    }
}

pub(crate) fn prefixed(prefix: &str, cmd: &String) -> (r: String)
    ensures
        r@ == prefix@ + cmd@,
{
    let mut cs = chars_of(prefix);
    let mut rest = chars_of(cmd.as_str());
    cs.append(&mut rest);
    string_of(cs.as_slice())
}

/// The line printed for the shell plugin after an fzf search.
pub fn result_line(r: &FzfResult) -> (l: Option<String>)
    ensures
        match l {
            Some(t) => spec_result_line(r@) == Some(t@),
            None => spec_result_line(r@) is None,
        },
{
    match r {
        FzfResult::Execute(c) => {
            let p = "EXEC:";
            proof {
                reveal_strlit("EXEC:");
                assert(p@ =~= seq!['E', 'X', 'E', 'C', ':']);
            }
            Some(prefixed(p, c))
        },
        FzfResult::Edit(c) => {
            let p = "EDIT:";
            proof {
                reveal_strlit("EDIT:");
                assert(p@ =~= seq!['E', 'D', 'I', 'T', ':']);
            }
            Some(prefixed(p, c))
        },
        FzfResult::Cancelled => None,
    }
}

} // verus!

verus! {

/// fzf's answer is cancelled exactly when fzf was interrupted, failed, or
/// ended with neither a selected line nor a typed query. Otherwise the
/// selected line (the third printed line), trimmed, is run or edited; only
/// when that line is blank is the typed query (the first line), trimmed,
/// run or edited instead.
pub proof fn fzf_cancels_only_without_a_choice(code: Option<i32>, text: Seq<char>)
    ensures
        (fzf_outcome(code, text) == FzfChoice::Cancelled) <==> (code is None || code == Some(130i32) || code
            == Some(2i32) || ((line_at(text, 2) is None || trimmed(line_at(text, 2)->0).len() == 0) && (line_at(
            text,
            0,
        ) is None || trimmed(line_at(text, 0)->0).len() == 0))),
        (code is Some && code != Some(130i32) && code != Some(2i32) && line_at(text, 2) is Some && trimmed(
            line_at(text, 2)->0,
        ).len() > 0) ==> (fzf_outcome(code, text) == FzfChoice::Execute(trimmed(line_at(text, 2)->0))
            || fzf_outcome(code, text) == FzfChoice::Edit(trimmed(line_at(text, 2)->0))),
        (code is Some && code != Some(130i32) && code != Some(2i32) && (line_at(text, 2) is None || trimmed(
            line_at(text, 2)->0,
        ).len() == 0) && line_at(text, 0) is Some && trimmed(line_at(text, 0)->0).len() > 0) ==> (fzf_outcome(
            code,
            text,
        ) == FzfChoice::Execute(trimmed(line_at(text, 0)->0)) || fzf_outcome(code, text) == FzfChoice::Edit(
            trimmed(line_at(text, 0)->0),
        )),
{
}

} // verus!
