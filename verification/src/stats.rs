//! Usage statistics: which commands are run most.
use vstd::prelude::*;
use crate::order::{is_stable_desc, sort_desc_stable};
use crate::schema::History;
use crate::text::{chars_of, distinct_in_order, is_space, is_space_char, lead_spaces, string_of, sub_chars};

verus! {

/// Number of leading characters of `s` that are not whitespace.
pub open spec fn word_len(s: Seq<char>) -> nat
    decreases s.len(),
{
    if s.len() > 0 && !is_space(s[0]) {
        1 + word_len(s.drop_first())
    } else {
        0
    }
}

/// The program name of a command: its first whitespace-separated word, or
/// the whole command when it has none.
pub open spec fn command_name(s: Seq<char>) -> Seq<char> {
    let t = s.skip(lead_spaces(s) as int);
    if t.len() == 0 {
        s
    } else {
        t.take(word_len(t) as int)
    }
}

proof fn lemma_word_len(s: Seq<char>, k: int)
    requires
        0 <= k <= s.len(),
        forall|j: int| 0 <= j < k ==> !is_space(#[trigger] s[j]),
        k == s.len() || is_space(s[k]),
    ensures
        word_len(s) == k,
    decreases k,
{
    if k > 0 {
        let t = s.drop_first();
        assert forall|j: int| 0 <= j < k - 1 implies !is_space(#[trigger] t[j]) by {
            assert(t[j] == s[j + 1]);
        }
        lemma_word_len(t, k - 1);
    }
}

/// The program name of `command`: its first word.
pub fn command_name_of(command: &str) -> (r: String)
    ensures
        r@ == command_name(command@),
{
    let s = chars_of(command);
    let n = s.len();
    let mut i: usize = 0;
    while i < n && is_space_char(s[i])
        invariant
            i <= n,
            n == s.len(),
            forall|j: int| 0 <= j < i ==> is_space(#[trigger] s@[j]),
        decreases n - i,
    {
        i += 1;
    }
    proof {
        crate::text::lemma_lead_spaces(s@, i as int);
    }
    if i == n {
        proof {
            assert(s@.skip(n as int).len() == 0);
        }
        return string_of(s.as_slice());
    }
    let mut e: usize = i;
    while e < n && !is_space_char(s[e])
        invariant
            i <= e <= n,
            n == s.len(),
            forall|j: int| i <= j < e ==> !is_space(#[trigger] s@[j]),
        decreases n - e,
    {
        e += 1;
    }
    proof {
        let t = s@.skip(i as int);
        assert forall|j: int| 0 <= j < e - i implies !is_space(#[trigger] t[j]) by {
            assert(t[j] == s@[j + i]);
        }
        if e < n {
            assert(t[e - i] == s@[e as int]);
        }
        lemma_word_len(t, e - i);
        assert(t.take(e - i) =~= s@.subrange(i as int, e as int));
    }
    let w = sub_chars(&s, i, e);
    string_of(w.as_slice())
}

/// How often `x` occurs in `s`.
pub open spec fn occurrences(s: Seq<Seq<char>>, x: Seq<char>) -> nat
    decreases s.len(),
{
    if s.len() == 0 {
        0
    } else {
        occurrences(s.drop_last(), x) + if s.last() == x {
            1nat
        } else {
            0nat
        }
    }
}

/// The program names of the commands of `entries`.
pub open spec fn names_of(entries: Seq<History>) -> Seq<Seq<char>> {
    entries.map_values(|h: History| command_name(h.command@))
}

/// Each distinct name of `names`, where it first occurs, with how often it
/// occurs.
pub open spec fn tally(names: Seq<Seq<char>>) -> Seq<(Seq<char>, nat)> {
    distinct_in_order(names).map_values(|d: Seq<char>| (d, occurrences(names, d)))
}

/// The key by which tallied names are ordered: their count.
pub open spec fn tally_count(p: (Seq<char>, nat)) -> int {
    p.1 as int
}

/// Orders tallied names by their count.
pub open spec fn by_count() -> spec_fn((Seq<char>, nat)) -> int {
    |p: (Seq<char>, nat)| tally_count(p)
}

/// The views of a list of names with counts.
pub open spec fn count_views(v: Seq<(String, usize)>) -> Seq<(Seq<char>, nat)> {
    v.map_values(|p: (String, usize)| (p.0@, p.1 as nat))
}

/// `r` lists the `n` most used program names of `entries` with their
/// counts, most used first; names used equally often keep the order in
/// which they first occur.
pub open spec fn is_top_commands(entries: Seq<History>, n: int, r: Seq<(Seq<char>, nat)>) -> bool {
    exists|sorted: Seq<(Seq<char>, nat)>|
        #![trigger is_stable_desc(tally(names_of(entries)), sorted, by_count())]
        is_stable_desc(tally(names_of(entries)), sorted, by_count())
            && r == sorted.take(if n < sorted.len() { n } else { sorted.len() as int })
}

} // verus!

verus! {

proof fn lemma_occurrences_bound(s: Seq<Seq<char>>, x: Seq<char>)
    ensures
        occurrences(s, x) <= s.len(),
        !s.contains(x) ==> occurrences(s, x) == 0,
    decreases s.len(),
{
    if s.len() > 0 {
        lemma_occurrences_bound(s.drop_last(), x);
        if !s.contains(x) {
            if s.drop_last().contains(x) {
                let k = choose|k: int| 0 <= k < s.drop_last().len() && s.drop_last()[k] == x;
                assert(s[k] == x);
            }
            assert(s[s.len() - 1] != x);
        }
    }
}

proof fn lemma_tally_step(p: Seq<Seq<char>>, x: Seq<char>, j: int)
    requires
        j < 0 ==> !distinct_in_order(p).contains(x),
        0 <= j ==> j < distinct_in_order(p).len() && distinct_in_order(p)[j] == x,
    ensures
        j < 0 ==> tally(p.push(x)) == tally(p).push((x, 1nat)),
        0 <= j ==> tally(p.push(x)) == tally(p).update(j, (x, occurrences(p, x) + 1)),
{
    let q = p.push(x);
    assert(q.drop_last() =~= p);
    crate::text::lemma_distinct_in_order(p);
    let d = distinct_in_order(p);
    assert forall|y: Seq<char>| #[trigger] occurrences(q, y) == occurrences(p, y) + (if y == x { 1nat } else { 0nat }) by {
    }
    if j < 0 {
        assert(!p.contains(x));
        lemma_occurrences_bound(p, x);
        assert(distinct_in_order(q) == d.push(x));
        assert forall|k: int| 0 <= k < d.len() implies d[k] != x by {
            assert(d.contains(d[k]));
        }
        assert(tally(q) =~= tally(p).push((x, 1nat)));
    } else {
        assert(d[j] == x);
        assert(d.contains(x));
        assert(distinct_in_order(q) == d);
        assert forall|k: int| 0 <= k < d.len() && k != j implies d[k] != x by {
            if k < j {
                assert(d[k] != d[j]);
            } else {
                assert(d[j] != d[k]);
            }
        }
        assert(tally(q) =~= tally(p).update(j, (x, occurrences(p, x) + 1)));
    }
}

/// The `n` most used program names of `entries`, most used first, with
/// their counts; names used equally often are listed in the order in which
/// they first occur (most recent first when the entries are).
pub fn top_commands(entries: &Vec<History>, n: usize) -> (r: Vec<(String, usize)>)
    requires
        entries@.len() <= i64::MAX,
    ensures
        is_top_commands(entries@, n as int, count_views(r@)),
{
    let ghost ns = names_of(entries@);
    let len = entries.len();
    let mut tal: Vec<(String, usize)> = Vec::new();
    let mut i: usize = 0;
    proof {
        assert(ns.take(0) =~= Seq::<Seq<char>>::empty());
        assert(count_views(tal@) =~= tally(ns.take(0)));
    }
    while i < len
        invariant
            len == entries.len(),
            len <= i64::MAX,
            i <= len,
            ns == names_of(entries@),
            count_views(tal@) == tally(ns.take(i as int)),
        decreases len - i,
    {
        let name = command_name_of(entries[i].command.as_str());
        let ghost p = ns.take(i as int);
        assert(ns.take(i + 1) =~= p.push(name@));
        let mut j: usize = 0;
        let mut found: Option<usize> = None;
        while j < tal.len()
            invariant
                j <= tal.len(),
                found matches Some(f) ==> f < tal.len() && tal@[f as int].0@ == name@,
                found is None ==> forall|k: int| 0 <= k < j ==> tal@[k].0@ != name@,
            decreases tal.len() - j,
        {
            if found.is_none() && tal[j].0 == name {
                found = Some(j);
            }
            j += 1;
        }
        proof {
            crate::text::lemma_distinct_in_order(p);
            assert(distinct_in_order(p).len() == count_views(tal@).len());
            lemma_occurrences_bound(p, name@);
            assert(p.len() == i);
        }
        match found {
            Some(f) => {
                let ghost tv = count_views(tal@);
                assert(tv[f as int] == (tal@[f as int].0@, tal@[f as int].1 as nat));
                assert(distinct_in_order(p)[f as int] == name@);
                proof {
                    lemma_tally_step(p, name@, f as int);
                    assert(tal@[f as int].1 == occurrences(p, name@));
                }
                let c = tal[f].1;
                tal.set(f, (name, c + 1));
                assert(count_views(tal@) =~= tv.update(f as int, (name@, (c + 1) as nat)));
            },
            None => {
                let ghost tv = count_views(tal@);
                proof {
                    assert forall|k: int| 0 <= k < distinct_in_order(p).len() implies distinct_in_order(p)[k] != name@ by {
                        assert(tv[k] == (tal@[k].0@, tal@[k].1 as nat));
                    }
                    lemma_tally_step(p, name@, -1);
                }
                tal.push((name, 1));
                assert(count_views(tal@) =~= tv.push((name@, 1nat)));
            },
        }
        i += 1;
    }
    assert(ns.take(len as int) =~= ns);
    let ghost full = tal@;
    let mut keys: Vec<i64> = Vec::new();
    let mut k: usize = 0;
    proof {
        crate::text::lemma_distinct_in_order(ns);
    }
    while k < tal.len()
        invariant
            k <= tal.len(),
            keys@.len() == k,
            tal@ == full,
            count_views(full) == tally(ns),
            ns.len() == len,
            len <= i64::MAX,
            forall|m: int| 0 <= m < k ==> keys@[m] as int == (#[trigger] full[m]).1 as int,
        decreases tal.len() - k,
    {
        proof {
            assert(count_views(full)[k as int] == (full[k as int].0@, full[k as int].1 as nat));
            let d = distinct_in_order(ns);
            assert(count_views(full).len() == full.len());
            assert(tally(ns).len() == d.len());
            assert(k < d.len());
            assert(tally(ns)[k as int] == (d[k as int], occurrences(ns, d[k as int])));
            lemma_occurrences_bound(ns, d[k as int]);
            assert(full[k as int].1 <= len);
        }
        keys.push(tal[k].1 as i64);
        k += 1;
    }
    let mut sorted = sort_desc_stable(tal, keys, Ghost(|p: (String, usize)| p.1 as int));
    proof {
        crate::order::stable_desc_map(
            full,
            sorted@,
            |p: (String, usize)| p.1 as int,
            |p: (String, usize)| (p.0@, p.1 as nat),
            by_count(),
        );
        assert(full.map_values(|p: (String, usize)| (p.0@, p.1 as nat)) =~= count_views(full));
    }
    let ghost sv = sorted@.map_values(|p: (String, usize)| (p.0@, p.1 as nat));
    sorted.truncate(n);
    proof {
        let m = if (n as int) < sv.len() { n as int } else { sv.len() as int };
        assert(count_views(sorted@) =~= sv.take(m));
        assert(is_stable_desc(tally(names_of(entries@)), sv, by_count()));
    }
    sorted
}

} // verus!

verus! {

proof fn lemma_occurs_positive(s: Seq<Seq<char>>, x: Seq<char>)
    requires
        s.contains(x),
    ensures
        occurrences(s, x) >= 1,
    decreases s.len(),
{
    let k = choose|k: int| 0 <= k < s.len() && s[k] == x;
    if k < s.len() - 1 {
        assert(s.drop_last()[k] == x);
        lemma_occurs_positive(s.drop_last(), x);
    }
}

/// The statistics list what they claim: at most `n` names, each a program
/// name of the entries listed once with its true count (at least one), most
/// used first, and no name left out is used more often than one listed.
pub proof fn top_commands_are_counted_and_ordered(entries: Seq<History>, n: int, r: Seq<(Seq<char>, nat)>)
    requires
        0 <= n,
        is_top_commands(entries, n, r),
    ensures
        r.len() <= n,
        forall|i: int|
            0 <= i < r.len() ==> names_of(entries).contains((#[trigger] r[i]).0) && r[i].1 == occurrences(
                names_of(entries),
                r[i].0,
            ) && r[i].1 >= 1,
        forall|i: int, j: int| 0 <= i < j < r.len() ==> (#[trigger] r[i]).1 >= (#[trigger] r[j]).1 && r[i].0 != r[j].0,
        forall|x: Seq<char>, i: int|
            #![trigger occurrences(names_of(entries), x), r[i]]
            names_of(entries).contains(x) && (forall|k: int| 0 <= k < r.len() ==> (#[trigger] r[k]).0 != x) && 0
                <= i < r.len() ==> occurrences(names_of(entries), x) <= r[i].1,
{
    let ns = names_of(entries);
    let t = tally(ns);
    let d = distinct_in_order(ns);
    crate::text::lemma_distinct_in_order(ns);
    let sorted = choose|sorted: Seq<(Seq<char>, nat)>|
        #![trigger is_stable_desc(tally(names_of(entries)), sorted, by_count())]
        is_stable_desc(tally(names_of(entries)), sorted, by_count())
            && r == sorted.take(if n < sorted.len() { n } else { sorted.len() as int });
    crate::order::stable_desc_is_sorted_permutation(t, sorted, by_count());
    let p = choose|p: Seq<int>| crate::order::arranges_desc(t, sorted, by_count(), p);
    let m = if n < sorted.len() { n } else { sorted.len() as int };
    assert(r.len() == m);
    assert forall|i: int|
        0 <= i < r.len() implies ns.contains((#[trigger] r[i]).0) && r[i].1 == occurrences(ns, r[i].0)
            && r[i].1 >= 1 by {
        assert(r[i] == sorted[i]);
        assert(sorted[i] == t[p[i]]);
        assert(t[p[i]] == (d[p[i]], occurrences(ns, d[p[i]])));
        assert(d.contains(d[p[i]]));
        lemma_occurs_positive(ns, d[p[i]]);
    }
    assert forall|i: int, j: int| 0 <= i < j < r.len() implies (#[trigger] r[i]).1 >= (#[trigger] r[j]).1
        && r[i].0 != r[j].0 by {
        assert(r[i] == sorted[i]);
        assert(r[j] == sorted[j]);
        assert(by_count()(sorted[i]) >= by_count()(sorted[j]));
        assert(sorted[i] == t[p[i]]);
        assert(sorted[j] == t[p[j]]);
        assert(p[i] != p[j]);
        assert(t[p[i]].0 == d[p[i]]);
        assert(t[p[j]].0 == d[p[j]]);
        if p[i] < p[j] {
            assert(d[p[i]] != d[p[j]]);
        } else {
            assert(d[p[j]] != d[p[i]]);
        }
    }
    assert forall|x: Seq<char>, i: int|
        #![trigger occurrences(ns, x), r[i]]
        ns.contains(x) && (forall|k: int| 0 <= k < r.len() ==> (#[trigger] r[k]).0 != x) && 0 <= i < r.len()
            implies occurrences(ns, x) <= r[i].1 by {
        assert(d.contains(x));
        let k = choose|k: int| 0 <= k < d.len() && d[k] == x;
        assert(t[k] == (x, occurrences(ns, x)));
        assert(sorted.contains(t[k]));
        let q = choose|q: int| 0 <= q < sorted.len() && sorted[q] == t[k];
        if q < m {
            assert(r[q] == sorted[q]);
            assert(r[q].0 == x);
        } else {
            assert(r[i] == sorted[i]);
            assert(by_count()(sorted[i]) >= by_count()(sorted[q]));
        }
    }
}

} // verus!

verus! {

proof fn lemma_word_len_span(s: Seq<char>)
    ensures
        word_len(s) <= s.len(),
        forall|j: int| 0 <= j < word_len(s) ==> !is_space(#[trigger] s[j]),
        word_len(s) < s.len() ==> is_space(s[word_len(s) as int]),
    decreases s.len(),
{
    if s.len() > 0 && !is_space(s[0]) {
        let t = s.drop_first();
        lemma_word_len_span(t);
        assert forall|j: int| 0 <= j < word_len(s) implies !is_space(#[trigger] s[j]) by {
            if j > 0 {
                assert(s[j] == t[j - 1]);
            }
        }
        if word_len(s) < s.len() {
            assert(s[word_len(s) as int] == t[word_len(t) as int]);
        }
    }
}

/// The program name of a command is its whole first word: for a command
/// with some non-whitespace character, the name is not empty, holds no
/// whitespace, stands in the command right after the leading whitespace,
/// and is followed there by whitespace or by the end of the command. A
/// command of whitespace only is its own name.
pub proof fn program_name_is_the_first_word(s: Seq<char>)
    ensures
        (forall|j: int| 0 <= j < s.len() ==> is_space(#[trigger] s[j])) ==> command_name(s) == s,
        (exists|j: int| 0 <= j < s.len() && !is_space(#[trigger] s[j])) ==> {
            &&& command_name(s).len() > 0
            &&& forall|j: int| 0 <= j < command_name(s).len() ==> !is_space(#[trigger] command_name(s)[j])
            &&& exists|i: int|
                #![trigger s.subrange(i, i + command_name(s).len())]
                0 <= i && i + command_name(s).len() <= s.len() && (forall|j: int| 0 <= j < i ==> is_space(
                    #[trigger] s[j],
                )) && s.subrange(i, i + command_name(s).len()) == command_name(s) && (i + command_name(s).len()
                    == s.len() || is_space(s[i + command_name(s).len()]))
        },
{
    crate::text::lemma_lead_spaces_span(s);
    let l = lead_spaces(s) as int;
    let t = s.skip(l);
    lemma_word_len_span(t);
    if forall|j: int| 0 <= j < s.len() ==> is_space(#[trigger] s[j]) {
        if l < s.len() {
            assert(is_space(s[l]));
        }
        assert(t.len() == 0);
    }
    if exists|j: int| 0 <= j < s.len() && !is_space(#[trigger] s[j]) {
        let j0 = choose|j: int| 0 <= j < s.len() && !is_space(#[trigger] s[j]);
        assert(l < s.len()) by {
            if l >= s.len() {
                assert(is_space(s[j0]));
            }
        }
        assert(t[0] == s[l]);
        assert(word_len(t) > 0);
        let w = command_name(s);
        assert(w == t.take(word_len(t) as int));
        let e = l + w.len();
        assert forall|j: int| 0 <= j < w.len() implies !is_space(#[trigger] w[j]) by {
            assert(w[j] == t[j]);
        }
        assert(s.subrange(l, e) =~= w);
        if e < s.len() {
            assert(s[e] == t[word_len(t) as int]);
        }
        assert(s.subrange(l, l + w.len()) == w);
    }
}

} // verus!
