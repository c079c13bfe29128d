//! The plain-text listing of recent history: which entries, and how each
//! row shows its command and age.
use vstd::prelude::*;
use crate::picker::{byte_len, char_index_of, find_char_index, lemma_boundary_unique, lemma_byte_len_utf8, on_boundary};
use crate::schema::SearchFilter;
use crate::text::{chars_of, dec_int, dec_nat, push_decimal, push_signed_decimal, string_of, sub_chars};

verus! {

/// The search behind `history list`: the `count` most recent entries,
/// optionally only those of one directory and one host.
pub fn list_filter(count: usize, cwd: Option<String>, host: Option<String>) -> (f: SearchFilter)
    ensures
        f.query is None,
        f.cwd == cwd,
        f.session is None,
        f.hostname == host,
        f.exit is None,
        f.limit == count,
        f.offset == 0,
{
    SearchFilter { query: None, cwd, session: None, hostname: host, exit: None, limit: count, offset: 0 }
}

/// How a listed command is shown: commands longer than 38 bytes are cut to
/// their first 35 bytes and marked with `...`.
pub open spec fn shortened(c: Seq<char>) -> Seq<char> {
    if byte_len(c) > 38 {
        c.take(char_index_of(c, 35)) + seq!['.', '.', '.']
    } else {
        c
    }
}

/// The command as the listing shows it. Cutting needs a character boundary
/// at byte 35 of a long command.
pub fn shorten_command(cmd: &str) -> (r: String)
    requires
        byte_len(cmd@) <= usize::MAX,
        byte_len(cmd@) > 38 ==> on_boundary(cmd@, 35),
    ensures
        r@ == shortened(cmd@),
{
    proof {
        lemma_byte_len_utf8(cmd@);
    }
    let n = cmd.len();
    let chars = chars_of(cmd);
    if n > 38 {
        let k = find_char_index(&chars, 35).unwrap();
        proof {
            let k2 = char_index_of(cmd@, 35);
            lemma_boundary_unique(cmd@, k as int, k2);
        }
        let mut out = sub_chars(&chars, 0, k);
        out.push('.');
        out.push('.');
        out.push('.');
        assert(out@ =~= cmd@.take(k as int) + seq!['.', '.', '.']);
        string_of(out.as_slice())
    } else {
        string_of(chars.as_slice())
    }
}

/// `a / b` rounded toward zero, as Rust divides integers.
pub open spec fn div_toward_zero(a: int, b: int) -> int {
    if a >= 0 {
        a / b
    } else {
        -((-a) / b)
    }
}

/// Whole seconds from `timestamp_ns` to `now_ns`, as Rust's integer
/// division gives them.
pub open spec fn elapsed_secs(now_ns: i64, timestamp_ns: i64) -> int {
    div_toward_zero(now_ns - timestamp_ns, 1_000_000_000)
}

/// The age of an entry as the listing shows it: seconds under a minute
/// (negative ages too), else whole minutes under an hour, whole hours
/// under a day, else whole days.
pub open spec fn relative_age(now_ns: i64, timestamp_ns: i64) -> Seq<char> {
    let d = elapsed_secs(now_ns, timestamp_ns);
    if d < 60 {
        crate::text::dec_int(d) + seq!['s']
    } else if d < 3600 {
        dec_nat((d / 60) as nat) + seq!['m']
    } else if d < 86400 {
        dec_nat((d / 3600) as nat) + seq!['h']
    } else {
        dec_nat((d / 86400) as nat) + seq!['d']
    }
}

/// The age of an entry recorded at `timestamp_ns`, seen at `now_ns`.
pub fn format_relative(now_ns: i64, timestamp_ns: i64) -> (r: String)
    requires
        i64::MIN <= now_ns - timestamp_ns <= i64::MAX,
    ensures
        r@ == relative_age(now_ns, timestamp_ns),
{
    let diff_ns = now_ns - timestamp_ns;
    let d: i64 = if diff_ns >= 0 {
        diff_ns / 1_000_000_000
    } else {
        let m: u64 = (-(diff_ns as i128)) as u64;
        let q: u64 = m / 1_000_000_000;
        -(q as i64)
    };
    assert(d == elapsed_secs(now_ns, timestamp_ns));
    let mut out: Vec<char> = Vec::new();
    if d < 60 {
        crate::text::push_signed_decimal(d, &mut out);
        out.push('s');
    } else if d < 3600 {
        push_decimal((d / 60) as u64, &mut out);
        out.push('m');
    } else if d < 86400 {
        push_decimal((d / 3600) as u64, &mut out);
        out.push('h');
    } else {
        push_decimal((d / 86400) as u64, &mut out);
        out.push('d');
    }
    assert(out@ =~= relative_age(now_ns, timestamp_ns));
    string_of(out.as_slice())
}

/// `s` padded on the right with spaces to `w` characters, as a `{:<w}`
/// format writes it; longer text is kept whole.
pub open spec fn padded(s: Seq<char>, w: nat) -> Seq<char> {
    if s.len() >= w {
        s
    } else {
        s + Seq::new((w - s.len()) as nat, |i: int| ' ')
    }
}

/// One row of the listing: time, duration, exit code, command and
/// directory, in columns 8, 6, 4 and 40 characters wide, one space apart.
pub open spec fn listing_row(
    time: Seq<char>,
    dur: Seq<char>,
    exit: Seq<char>,
    cmd: Seq<char>,
    cwd: Seq<char>,
) -> Seq<char> {
    padded(time, 8) + seq![' '] + padded(dur, 6) + seq![' '] + padded(exit, 4) + seq![' ']
        + padded(cmd, 40) + seq![' '] + cwd
}

fn push_padded(s: &str, w: usize, out: &mut Vec<char>)
    ensures
        final(out)@ == old(out)@ + padded(s@, w as nat),
{
    let chars = chars_of(s);
    let ghost start = out@;
    let mut i: usize = 0;
    while i < chars.len()
        invariant
            i <= chars.len(),
            chars@ == s@,
            out@ == start + chars@.take(i as int),
        decreases chars.len() - i,
    {
        out.push(chars[i]);
        i = i + 1;
        assert(out@ =~= start + chars@.take(i as int));
    }
    assert(chars@.take(i as int) =~= chars@);
    let mut n: usize = chars.len();
    while n < w
        invariant
            chars@.len() <= n <= (if chars@.len() >= w { chars@.len() as int } else { w as int }),
            chars@ == s@,
            out@ == start + s@ + Seq::new((n - s@.len()) as nat, |k: int| ' '),
        decreases w - n,
    {
        out.push(' ');
        n = n + 1;
        assert(out@ =~= start + s@ + Seq::new((n - s@.len()) as nat, |k: int| ' '));
    }
    assert(out@ =~= start + padded(s@, w as nat));
}

/// The text of one listing row, the heading included.
pub fn format_row(time: &str, dur: &str, exit: &str, cmd: &str, cwd: &str) -> (r: String)
    ensures
        r@ == listing_row(time@, dur@, exit@, cmd@, cwd@),
{
    let mut out: Vec<char> = Vec::new();
    push_padded(time, 8, &mut out);
    out.push(' ');
    push_padded(dur, 6, &mut out);
    out.push(' ');
    push_padded(exit, 4, &mut out);
    out.push(' ');
    push_padded(cmd, 40, &mut out);
    out.push(' ');
    push_padded(cwd, 0, &mut out);
    assert(out@ =~= listing_row(time@, dur@, exit@, cmd@, cwd@));
    string_of(out.as_slice())
}

/// The exit code as the listing shows it, in decimal.
pub fn exit_text(exit: i32) -> (r: String)
    ensures
        r@ == dec_int(exit as int),
{
    let mut out: Vec<char> = Vec::new();
    push_signed_decimal(exit as i64, &mut out);
    assert(out@ =~= dec_int(exit as int));
    string_of(out.as_slice())
}

} // verus!

verus! {

/// The age shown for an entry counts whole units of the time elapsed: the
/// seconds themselves under a minute, else the whole minutes (under an
/// hour), whole hours (under a day) or whole days, so that the number shown
/// times its unit is at most the age and falls short of it by less than one
/// unit. The elapsed seconds are the whole seconds between the two times.
pub proof fn ages_count_whole_units(now_ns: i64, timestamp_ns: i64)
    ensures
        now_ns >= timestamp_ns ==> elapsed_secs(now_ns, timestamp_ns) * 1_000_000_000 <= now_ns - timestamp_ns
            < (elapsed_secs(now_ns, timestamp_ns) + 1) * 1_000_000_000,
        elapsed_secs(now_ns, timestamp_ns) < 60 ==> relative_age(now_ns, timestamp_ns) == dec_int(
            elapsed_secs(now_ns, timestamp_ns),
        ) + seq!['s'],
        60 <= elapsed_secs(now_ns, timestamp_ns) < 3600 ==> exists|k: nat|
            relative_age(now_ns, timestamp_ns) == dec_nat(k) + seq!['m'] && k * 60 <= elapsed_secs(now_ns, timestamp_ns)
                < (k + 1) * 60,
        3600 <= elapsed_secs(now_ns, timestamp_ns) < 86400 ==> exists|k: nat|
            relative_age(now_ns, timestamp_ns) == dec_nat(k) + seq!['h'] && k * 3600 <= elapsed_secs(now_ns, timestamp_ns)
                < (k + 1) * 3600,
        86400 <= elapsed_secs(now_ns, timestamp_ns) ==> exists|k: nat|
            relative_age(now_ns, timestamp_ns) == dec_nat(k) + seq!['d'] && k * 86400 <= elapsed_secs(now_ns, timestamp_ns)
                < (k + 1) * 86400,
{
    let d = elapsed_secs(now_ns, timestamp_ns);
    if now_ns >= timestamp_ns {
        let x: int = now_ns - timestamp_ns;
        assert(d == x / 1_000_000_000);
        assert(x / 1_000_000_000 * 1_000_000_000 <= x < (x / 1_000_000_000 + 1) * 1_000_000_000)
            by (nonlinear_arith)
            requires
                x >= 0,
        ;
    }
    if d >= 60 {
        let u: int = if d < 3600 { 60 } else if d < 86400 { 3600 } else { 86400 };
        let k: int = d / u;
        assert(k * u <= d < (k + 1) * u && k >= 0) by (nonlinear_arith)
            requires
                d >= 0,
                u > 0,
                k == d / u,
        ;
        let kn: nat = k as nat;
        assert(relative_age(now_ns, timestamp_ns) == dec_nat(kn) + (if d < 3600 {
            seq!['m']
        } else if d < 86400 {
            seq!['h']
        } else {
            seq!['d']
        }));
    }
}

} // verus!
