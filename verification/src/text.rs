//! Character-level text helpers: whitespace, trimming, line splitting and
//! decimal rendering of integers, each stated over `Seq<char>`.
use vstd::prelude::*;

verus! {

/// The Unicode `White_Space` property, the set of characters that
/// `char::is_whitespace` accepts.
pub open spec fn is_space(c: char) -> bool {
    let u = c as u32;
    ||| (0x09 <= u && u <= 0x0D)
    ||| u == 0x20
    ||| u == 0x85
    ||| u == 0xA0
    ||| u == 0x1680
    ||| (0x2000 <= u && u <= 0x200A)
    ||| u == 0x2028
    ||| u == 0x2029
    ||| u == 0x202F
    ||| u == 0x205F
    ||| u == 0x3000
}

/// Decides `is_space`.
pub fn is_space_char(c: char) -> (b: bool)
    ensures
        b == is_space(c),
{
    let u = c as u32;
    (0x09 <= u && u <= 0x0D) || u == 0x20 || u == 0x85 || u == 0xA0 || u == 0x1680
        || (0x2000 <= u && u <= 0x200A) || u == 0x2028 || u == 0x2029 || u == 0x202F
        || u == 0x205F || u == 0x3000
}

/// Number of leading whitespace characters of `s`.
pub open spec fn lead_spaces(s: Seq<char>) -> nat
    decreases s.len(),
{
    if s.len() > 0 && is_space(s[0]) {
        1 + lead_spaces(s.drop_first())
    } else {
        0
    }
}

/// Number of trailing whitespace characters of `s`.
pub open spec fn trail_spaces(s: Seq<char>) -> nat
    decreases s.len(),
{
    if s.len() > 0 && is_space(s.last()) {
        1 + trail_spaces(s.drop_last())
    } else {
        0
    }
}

/// `s` without leading and trailing whitespace, as `str::trim` gives it.
pub open spec fn trimmed(s: Seq<char>) -> Seq<char> {
    let t = s.skip(lead_spaces(s) as int);
    t.take(t.len() - trail_spaces(t))
}

} // verus!

verus! {

pub proof fn lemma_lead_spaces(s: Seq<char>, k: int)
    requires
        0 <= k <= s.len(),
        forall|j: int| 0 <= j < k ==> is_space(#[trigger] s[j]),
        k == s.len() || !is_space(s[k]),
    ensures
        lead_spaces(s) == k,
    decreases k,
{
    if k > 0 {
        let t = s.drop_first();
        assert forall|j: int| 0 <= j < k - 1 implies is_space(#[trigger] t[j]) by {
            assert(t[j] == s[j + 1]);
        }
        lemma_lead_spaces(t, k - 1);
    }
}

pub proof fn lemma_trail_spaces(s: Seq<char>, k: int)
    requires
        0 <= k <= s.len(),
        forall|j: int| s.len() - k <= j < s.len() ==> is_space(#[trigger] s[j]),
        k == s.len() || !is_space(s[s.len() - 1 - k]),
    ensures
        trail_spaces(s) == k,
    decreases k,
{
    if k > 0 {
        let t = s.drop_last();
        assert forall|j: int| t.len() - (k - 1) <= j < t.len() implies is_space(#[trigger] t[j]) by {
            assert(t[j] == s[j]);
        }
        lemma_trail_spaces(t, k - 1);
    }
}

/// The characters of `s` from `lo` up to (not including) `hi`.
pub fn sub_chars(s: &Vec<char>, lo: usize, hi: usize) -> (r: Vec<char>)
    requires
        lo <= hi <= s.len(),
    ensures
        r@ == s@.subrange(lo as int, hi as int),
{
    let mut r: Vec<char> = Vec::new();
    let mut i = lo;
    while i < hi
        invariant
            lo <= i <= hi <= s.len(),
            r@ == s@.subrange(lo as int, i as int),
        decreases hi - i,
    {
        r.push(s[i]);
        i += 1;
    }
    r
}

/// `s` without leading and trailing whitespace.
pub fn trim_chars(s: &Vec<char>) -> (r: Vec<char>)
    ensures
        r@ == trimmed(s@),
{
    let n = s.len();
    let mut i: usize = 0;
    while i < n && is_space_char(s[i])
        invariant
            i <= n,
            n == s.len(),
            forall|j: int| 0 <= j < i ==> is_space(#[trigger] s@[j]),
        decreases n - i,
    {
        i += 1;
    }
    proof {
        lemma_lead_spaces(s@, i as int);
    }
    let mut e: usize = n;
    while e > i && is_space_char(s[e - 1])
        invariant
            i <= e <= n,
            n == s.len(),
            forall|j: int| e <= j < n ==> is_space(#[trigger] s@[j]),
        decreases e,
    {
        e -= 1;
    }
    proof {
        let t = s@.skip(i as int);
        assert forall|j: int| t.len() - (n - e) <= j < t.len() implies is_space(#[trigger] t[j]) by {
            assert(t[j] == s@[j + i]);
        }
        if n - e < t.len() {
            assert(t[t.len() - 1 - (n - e)] == s@[e - 1]);
        }
        lemma_trail_spaces(t, (n - e) as int);
        assert(t.take(t.len() - (n - e)) =~= s@.subrange(i as int, e as int));
    }
    sub_chars(s, i, e)
}

/// The characters of `s`, in order.
pub fn chars_of(s: &str) -> (r: Vec<char>)
    ensures
        r@ == s@,
{
    broadcast use vstd::string::group_string_axioms;
    let mut r: Vec<char> = Vec::new();
    for c in it: s.chars()
        invariant
            r@ == it.seq().take(it.index() as int),
            it.seq() == s@,
    {
        r.push(c);
        assert(r@ =~= it.seq().take(it.index() + 1));
    }
    assert(r@ =~= s@);
    r
}

/// Builds a `String` from its characters (std's `FromIterator<&char>` for
/// `String`, which appends the characters in order).
#[verifier::external_body]
pub(crate) fn string_of(v: &[char]) -> (r: String)
    ensures
        r@ == v@,
{
    v.iter().collect()
}

} // verus!

verus! {

/// Index of the first `'\n'` in `s`, or `s.len()` when there is none.
pub open spec fn newline_at(s: Seq<char>) -> nat
    decreases s.len(),
{
    if s.len() == 0 {
        0
    } else if s[0] == '\n' {
        0
    } else {
        1 + newline_at(s.drop_first())
    }
}

/// `t` without one trailing carriage return.
pub open spec fn strip_cr(t: Seq<char>) -> Seq<char> {
    if t.len() > 0 && t.last() == '\r' {
        t.drop_last()
    } else {
        t
    }
}

pub proof fn lemma_newline_at(s: Seq<char>, k: int)
    requires
        0 <= k <= s.len(),
        forall|j: int| 0 <= j < k ==> #[trigger] s[j] != '\n',
        k == s.len() || s[k] == '\n',
    ensures
        newline_at(s) == k,
    decreases k,
{
    if k > 0 {
        let t = s.drop_first();
        assert forall|j: int| 0 <= j < k - 1 implies #[trigger] t[j] != '\n' by {
            assert(t[j] == s[j + 1]);
        }
        lemma_newline_at(t, k - 1);
    }
}

pub proof fn lemma_newline_at_bound(s: Seq<char>)
    ensures
        newline_at(s) <= s.len(),
        newline_at(s) < s.len() ==> s[newline_at(s) as int] == '\n',
        forall|j: int| 0 <= j < newline_at(s) ==> #[trigger] s[j] != '\n',
    decreases s.len(),
{
    if s.len() > 0 && s[0] != '\n' {
        lemma_newline_at_bound(s.drop_first());
        assert forall|j: int| 0 <= j < newline_at(s) implies #[trigger] s[j] != '\n' by {
            if j > 0 {
                assert(s[j] == s.drop_first()[j - 1]);
            }
        }
    }
}

/// The lines of `s` as `str::lines` yields them: pieces between `'\n'`s, a
/// `'\r'` right before a `'\n'` dropped, and no empty piece after a final
/// `'\n'`.
pub open spec fn lines_of(s: Seq<char>) -> Seq<Seq<char>>
    decreases s.len(),
{
    if s.len() == 0 {
        seq![]
    } else {
        let i = newline_at(s);
        proof {
            lemma_newline_at_bound(s);
        }
        if i >= s.len() {
            seq![s]
        } else {
            seq![strip_cr(s.take(i as int))] + lines_of(s.skip(i as int + 1))
        }
    }
}

/// The line at position `n` of `s`, if there is one.
pub open spec fn line_at(s: Seq<char>, n: int) -> Option<Seq<char>> {
    if 0 <= n < lines_of(s).len() {
        Some(lines_of(s)[n])
    } else {
        None
    }
}

/// `t` without one trailing carriage return.
fn strip_cr_chars(t: Vec<char>) -> (r: Vec<char>)
    ensures
        r@ == strip_cr(t@),
{
    let ghost orig = t@;
    let mut t = t;
    let n = t.len();
    if n > 0 && t[n - 1] == '\r' {
        t.pop();
        assert(t@ =~= orig.drop_last());
    }
    t
}

/// The character sequences held by a vector of character vectors.
pub open spec fn char_rows(r: Seq<Vec<char>>) -> Seq<Seq<char>> {
    r.map_values(|v: Vec<char>| v@)
}

/// The lines of `s`, as `str::lines` yields them.
pub fn split_lines(s: &Vec<char>) -> (r: Vec<Vec<char>>)
    ensures
        char_rows(r@) == lines_of(s@),
{
    let n = s.len();
    let mut r: Vec<Vec<char>> = Vec::new();
    let mut start: usize = 0;
    proof {
        assert(s@.skip(0) =~= s@);
        assert(char_rows(r@) + lines_of(s@) =~= lines_of(s@));
    }
    while start < n
        invariant
            start <= n,
            n == s.len(),
            lines_of(s@) == char_rows(r@) + lines_of(s@.skip(start as int)),
        decreases n - start,
    {
        let mut p = start;
        while p < n && s[p] != '\n'
            invariant
                start <= p <= n,
                n == s.len(),
                forall|j: int| start <= j < p ==> #[trigger] s@[j] != '\n',
            decreases n - p,
        {
            p += 1;
        }
        let ghost rest = s@.skip(start as int);
        proof {
            assert forall|j: int| 0 <= j < p - start implies #[trigger] rest[j] != '\n' by {
                assert(rest[j] == s@[j + start]);
            }
            lemma_newline_at(rest, p - start);
        }
        let piece = sub_chars(s, start, p);
        let ghost old_r = char_rows(r@);
        if p == n {
            assert(piece@ =~= rest);
            r.push(piece);
            proof {
                assert(char_rows(r@) =~= old_r.push(rest));
                assert(s@.skip(n as int) =~= Seq::<char>::empty());
                assert(lines_of(s@.skip(n as int)) =~= Seq::<Seq<char>>::empty());
                assert(lines_of(rest) =~= seq![rest]);
            }
            start = n;
        } else {
            let line = strip_cr_chars(piece);
            r.push(line);
            proof {
                assert(piece@ =~= rest.take(p - start));
                assert(rest.skip(p - start + 1) =~= s@.skip(p + 1));
                assert(char_rows(r@) =~= old_r.push(line@));
                assert(lines_of(rest) =~= seq![line@] + lines_of(s@.skip(p + 1)));
            }
            start = p + 1;
        }
        assert(lines_of(s@) =~= char_rows(r@) + lines_of(s@.skip(start as int)));
    }
    proof {
        assert(s@.skip(n as int) =~= Seq::<char>::empty());
        assert(char_rows(r@) + Seq::<Seq<char>>::empty() =~= char_rows(r@));
    }
    r
}

/// The character of decimal digit `d`.
pub open spec fn digit(d: nat) -> char {
    if d == 0 { '0' }
    else if d == 1 { '1' }
    else if d == 2 { '2' }
    else if d == 3 { '3' }
    else if d == 4 { '4' }
    else if d == 5 { '5' }
    else if d == 6 { '6' }
    else if d == 7 { '7' }
    else if d == 8 { '8' }
    else { '9' }
}

/// Decimal digits of `n`, without leading zeros.
pub open spec fn dec_nat(n: nat) -> Seq<char>
    decreases n,
{
    if n < 10 {
        seq![digit(n)]
    } else {
        dec_nat(n / 10).push(digit(n % 10))
    }
}

/// Decimal rendering of `n` as `Display` writes an integer: a `'-'` before
/// the digits of a negative number.
pub open spec fn dec_int(n: int) -> Seq<char> {
    if n < 0 {
        seq!['-'] + dec_nat((-n) as nat)
    } else {
        dec_nat(n as nat)
    }
}

fn digit_char(d: u64) -> (c: char)
    requires
        d < 10,
    ensures
        c == digit(d as nat),
{
    if d == 0 { '0' }
    else if d == 1 { '1' }
    else if d == 2 { '2' }
    else if d == 3 { '3' }
    else if d == 4 { '4' }
    else if d == 5 { '5' }
    else if d == 6 { '6' }
    else if d == 7 { '7' }
    else if d == 8 { '8' }
    else { '9' }
}

/// Appends the decimal digits of `n` to `out`.
pub fn push_decimal(n: u64, out: &mut Vec<char>)
    ensures
        final(out)@ == old(out)@ + dec_nat(n as nat),
    decreases n,
{
    if n >= 10 {
        push_decimal(n / 10, out);
    }
    let c = digit_char(n % 10);
    out.push(c);
    assert(final(out)@ =~= old(out)@ + dec_nat(n as nat)) by {
        if n >= 10 {
            assert(dec_nat(n as nat) == dec_nat((n / 10) as nat).push(digit((n % 10) as nat)));
        }
    }
}

/// Appends the decimal rendering of `n` to `out`.
pub fn push_signed_decimal(n: i64, out: &mut Vec<char>)
    ensures
        final(out)@ == old(out)@ + dec_int(n as int),
{
    if n < 0 {
        out.push('-');
        let m: u64 = (-(n as i128)) as u64;
        push_decimal(m, out);
        assert(final(out)@ =~= old(out)@ + dec_int(n as int));
    } else {
        push_decimal(n as u64, out);
    }
}

} // verus!

verus! {

/// Whether two character vectors hold the same characters.
pub fn same_chars(a: &Vec<char>, b: &Vec<char>) -> (r: bool)
    ensures
        r == (a@ == b@),
{
    if a.len() != b.len() {
        return false;
    }
    let n = a.len();
    let mut i: usize = 0;
    while i < n
        invariant
            n == a.len(),
            n == b.len(),
            i <= n,
            forall|j: int| 0 <= j < i ==> a@[j] == b@[j],
        decreases n - i,
    {
        if a[i] != b[i] {
            return false;
        }
        i += 1;
    }
    assert(a@ =~= b@);
    true
}

/// The distinct elements of `s`, each where it first occurs.
pub open spec fn distinct_in_order<A>(s: Seq<A>) -> Seq<A>
    decreases s.len(),
{
    if s.len() == 0 {
        Seq::empty()
    } else {
        let d = distinct_in_order(s.drop_last());
        if d.contains(s.last()) {
            d
        } else {
            d.push(s.last())
        }
    }
}

/// The character sequences of a list of strings.
pub open spec fn string_views(v: Seq<String>) -> Seq<Seq<char>> {
    v.map_values(|s: String| s@)
}

} // verus!

verus! {

/// What `String::from_utf8_lossy` gives for `bytes`: the characters they
/// encode, each invalid sequence replaced by U+FFFD.
pub uninterp spec fn lossy_utf8(bytes: Seq<u8>) -> Seq<char>;

/// std's `String::from_utf8_lossy`. Its contract claims that the result is
/// `lossy_utf8` of the bytes, and, as std documents, that valid UTF-8 is
/// decoded as it stands.
#[verifier::external_body]
pub(crate) fn decode_lossy(bytes: &[u8]) -> (r: String)
    ensures
        r@ == lossy_utf8(bytes@),
        vstd::utf8::valid_utf8(bytes@) ==> r@ == vstd::utf8::decode_utf8(bytes@),
{
    String::from_utf8_lossy(bytes).into_owned()
}

} // verus!

verus! {

/// `distinct_in_order(s)` holds each element of `s` exactly once and
/// nothing else.
pub proof fn lemma_distinct_in_order<A>(s: Seq<A>)
    ensures
        forall|i: int, j: int|
            0 <= i < j < distinct_in_order(s).len() ==> distinct_in_order(s)[i] != distinct_in_order(s)[j],
        forall|y: A| s.contains(y) <==> #[trigger] distinct_in_order(s).contains(y),
        distinct_in_order(s).len() <= s.len(),
    decreases s.len(),
{
    if s.len() > 0 {
        let p = s.drop_last();
        lemma_distinct_in_order(p);
        let d = distinct_in_order(p);
        assert forall|y: A| s.contains(y) <==> #[trigger] distinct_in_order(s).contains(y) by {
            if s.contains(y) {
                let k = choose|k: int| 0 <= k < s.len() && s[k] == y;
                if k < s.len() - 1 {
                    assert(p[k] == y);
                    assert(p.contains(y));
                }
            }
            if p.contains(y) {
                let k = choose|k: int| 0 <= k < p.len() && p[k] == y;
                assert(s[k] == y);
            }
            if distinct_in_order(s).contains(y) && !d.contains(y) {
                assert(distinct_in_order(s) == d.push(s.last()));
                let k = choose|k: int| 0 <= k < d.len() + 1 && d.push(s.last())[k] == y;
                assert(s[s.len() - 1] == y);
            }
            if d.contains(y) {
                let k = choose|k: int| 0 <= k < d.len() && d[k] == y;
                if !d.contains(s.last()) {
                    assert(d.push(s.last())[k] == y);
                }
            }
            if s.last() == y && !d.contains(s.last()) {
                assert(d.push(s.last())[d.len() as int] == y);
            }
        }
    }
}

} // verus!

verus! {

/// Whether `s` and `t` hold the same characters.
pub fn same_text(s: &str, t: &str) -> (r: bool)
    ensures
        r == (s@ == t@),
{
    let a = chars_of(s);
    let b = chars_of(t);
    same_chars(&a, &b)
}

} // verus!

verus! {

/// The first element of `s` stays first.
pub proof fn lemma_distinct_first<A>(s: Seq<A>)
    requires
        s.len() > 0,
    ensures
        distinct_in_order(s).len() > 0,
        distinct_in_order(s)[0] == s[0],
    decreases s.len(),
{
    if s.len() > 1 {
        let p = s.drop_last();
        lemma_distinct_first(p);
        assert(p[0] == s[0]);
    } else {
        assert(s.drop_last().len() == 0);
        assert(distinct_in_order(s.drop_last()) =~= Seq::<A>::empty());
    }
}

} // verus!

verus! {

/// The number that a string of decimal digits spells, read by character
/// codes (`'0'` is 48).
pub open spec fn digits_value(s: Seq<char>) -> int
    decreases s.len(),
{
    if s.len() == 0 {
        0
    } else {
        digits_value(s.drop_last()) * 10 + (s.last() as int - 48)
    }
}

proof fn lemma_digit_code(d: nat)
    requires
        d < 10,
    ensures
        digit(d) as int == 48 + d,
{
}

/// The decimal text of `n` spells `n`: it is made only of the digits `0`
/// to `9`, it starts with `0` only when it is `0` itself, and the digits
/// read back as `n`.
pub proof fn decimal_spells_the_number(n: nat)
    ensures
        dec_nat(n).len() > 0,
        forall|i: int| 0 <= i < dec_nat(n).len() ==> 48 <= (#[trigger] dec_nat(n)[i]) as int <= 57,
        dec_nat(n)[0] == '0' ==> n == 0 && dec_nat(n).len() == 1,
        digits_value(dec_nat(n)) == n,
    decreases n,
{
    if n >= 10 {
        decimal_spells_the_number(n / 10);
        let p = dec_nat(n / 10);
        let s = dec_nat(n);
        assert(s == p.push(digit(n % 10)));
        assert(s.drop_last() =~= p);
        assert forall|i: int| 0 <= i < s.len() implies 48 <= (#[trigger] s[i]) as int <= 57 by {
            if i < p.len() {
                assert(s[i] == p[i]);
            }
        }
        assert(s[0] == p[0]);
        assert(n == (n / 10) * 10 + n % 10);
        lemma_digit_code(n % 10);
        assert(s.last() == digit(n % 10));
        assert(digits_value(s) == digits_value(p) * 10 + (s.last() as int - 48));
    } else {
        lemma_digit_code(n);
        let s = dec_nat(n);
        assert(s.drop_last() =~= Seq::<char>::empty());
        assert(digits_value(s.drop_last()) == 0);
        assert(digits_value(s) == digits_value(s.drop_last()) * 10 + (s.last() as int - 48));
    }
}

} // verus!

verus! {

pub(crate) proof fn lemma_lead_spaces_span(s: Seq<char>)
    ensures
        lead_spaces(s) <= s.len(),
        forall|j: int| 0 <= j < lead_spaces(s) ==> is_space(#[trigger] s[j]),
        lead_spaces(s) < s.len() ==> !is_space(s[lead_spaces(s) as int]),
    decreases s.len(),
{
    if s.len() > 0 && is_space(s[0]) {
        let t = s.drop_first();
        lemma_lead_spaces_span(t);
        assert forall|j: int| 0 <= j < lead_spaces(s) implies is_space(#[trigger] s[j]) by {
            if j > 0 {
                assert(s[j] == t[j - 1]);
            }
        }
        if lead_spaces(s) < s.len() {
            assert(s[lead_spaces(s) as int] == t[lead_spaces(t) as int]);
        }
    }
}

proof fn lemma_trail_spaces_span(s: Seq<char>)
    ensures
        trail_spaces(s) <= s.len(),
        forall|j: int| s.len() - trail_spaces(s) <= j < s.len() ==> is_space(#[trigger] s[j]),
        trail_spaces(s) < s.len() ==> !is_space(s[s.len() - 1 - trail_spaces(s)]),
    decreases s.len(),
{
    if s.len() > 0 && is_space(s.last()) {
        let t = s.drop_last();
        lemma_trail_spaces_span(t);
        assert forall|j: int| s.len() - trail_spaces(s) <= j < s.len() implies is_space(#[trigger] s[j]) by {
            if j < s.len() - 1 {
                assert(s[j] == t[j]);
            }
        }
        if trail_spaces(s) < s.len() {
            assert(s[s.len() - 1 - trail_spaces(s)] == t[t.len() - 1 - trail_spaces(t)]);
        }
    }
}

/// Trimming keeps one unbroken stretch of the text and drops only
/// whitespace around it: the result is `s[a..b]`, everything before `a`
/// and from `b` on is whitespace, and a non-empty result starts and ends
/// with a character that is not whitespace. So a text with any
/// non-whitespace character trims to something non-empty.
pub proof fn trimming_drops_only_surrounding_space(s: Seq<char>)
    ensures
        exists|a: int, b: int|
            0 <= a <= b <= s.len() && #[trigger] s.subrange(a, b) == trimmed(s) && (forall|j: int|
                0 <= j < a ==> is_space(#[trigger] s[j])) && (forall|j: int| b <= j < s.len() ==> is_space(
                #[trigger] s[j],
            )) && (a < b ==> !is_space(s[a]) && !is_space(s[b - 1])),
        (exists|j: int| 0 <= j < s.len() && !is_space(#[trigger] s[j])) ==> trimmed(s).len() > 0,
{
    lemma_lead_spaces_span(s);
    let a = lead_spaces(s) as int;
    let t = s.skip(a);
    lemma_trail_spaces_span(t);
    let tt = trail_spaces(t) as int;
    let b = a + t.len() - tt;
    if a < s.len() {
        assert(t[0] == s[a]);
        assert(tt < t.len()) by {
            if tt >= t.len() {
                assert(is_space(t[0]));
            }
        }
        assert(t[t.len() - 1 - tt] == s[b - 1]);
    }
    assert(s.subrange(a, b) =~= trimmed(s));
    assert forall|j: int| b <= j < s.len() implies is_space(#[trigger] s[j]) by {
        assert(s[j] == t[j - a]);
    }
    if exists|j: int| 0 <= j < s.len() && !is_space(#[trigger] s[j]) {
        let j0 = choose|j: int| 0 <= j < s.len() && !is_space(#[trigger] s[j]);
        assert(a < s.len()) by {
            if a >= s.len() {
                assert(is_space(s[j0]));
            }
        }
    }
    assert(s.subrange(a, b) == trimmed(s));
}

/// How text splits into lines: empty text has none; text without a
/// newline is one line; and text `a`, newline, `b` with no newline in `a`
/// has `a` (without a final carriage return) as its first line, followed
/// by the lines of `b`.
pub proof fn lines_split_at_newlines(s: Seq<char>, a: Seq<char>, b: Seq<char>, n: int)
    ensures
        s.len() == 0 ==> line_at(s, 0) is None,
        (s.len() > 0 && forall|j: int| 0 <= j < s.len() ==> #[trigger] s[j] != '\n') ==> line_at(s, 0) == Some(s)
            && line_at(s, 1) is None,
        (s == a + seq!['\n'] + b && forall|j: int| 0 <= j < a.len() ==> #[trigger] a[j] != '\n') ==> line_at(s, 0)
            == Some(strip_cr(a)) && (n >= 0 ==> line_at(s, n + 1) == line_at(b, n)),
{
    if s.len() > 0 && forall|j: int| 0 <= j < s.len() ==> #[trigger] s[j] != '\n' {
        lemma_newline_at(s, s.len() as int);
    }
    if s == a + seq!['\n'] + b && forall|j: int| 0 <= j < a.len() ==> #[trigger] a[j] != '\n' {
        assert forall|j: int| 0 <= j < a.len() implies #[trigger] s[j] != '\n' by {
            assert(s[j] == a[j]);
        }
        assert(s[a.len() as int] == '\n');
        lemma_newline_at(s, a.len() as int);
        assert(s.take(a.len() as int) =~= a);
        assert(s.skip(a.len() as int + 1) =~= b);
    }
}

} // verus!
