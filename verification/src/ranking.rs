//! Ranking of history entries against a typed query, as the built-in
//! picker shows them, and the split of a command into highlighted parts.
use vstd::prelude::*;
use crate::order::{is_stable_desc, sort_desc_stable, stable_desc_map};
use crate::schema::{History, SearchFilter};

verus! {

/// What `SkimMatcherV2::default().fuzzy_indices(choice, pattern)` gives:
/// `None` when `pattern` does not match `choice`, else the match score and
/// the character positions of `choice` that matched.
pub uninterp spec fn skim_match(choice: Seq<char>, pattern: Seq<char>) -> Option<(i64, Seq<usize>)>;

/// `fuzzy_matcher`'s `SkimMatcherV2::fuzzy_indices` with the default
/// matcher (smart case). Its contract claims that the result is
/// `skim_match` of the two texts, and, as the crate's source shows, that an
/// empty pattern matches with score 0 and no positions.
#[verifier::external_body]
fn fuzzy_indices(choice: &str, pattern: &str) -> (r: Option<(i64, Vec<usize>)>)
    ensures
        match r {
            Some((score, pos)) => {
                &&& skim_match(choice@, pattern@) == Some((score, pos@))
                &&& pattern@.len() == 0 ==> score == 0 && pos@.len() == 0
            },
            None => skim_match(choice@, pattern@) is None && pattern@.len() != 0,
        },
{
    let matcher = fuzzy_matcher::skim::SkimMatcherV2::default();
    fuzzy_matcher::FuzzyMatcher::fuzzy_indices(&matcher, choice, pattern)
}

/// An entry with how well it matched the query.
pub struct ScoredEntry {
    pub history: History,
    pub score: i64,
    /// Character positions of the command that matched the query.
    pub positions: Vec<usize>,
}

/// The mathematical value of a `ScoredEntry`.
pub struct ScoredView {
    pub history: History,
    pub score: i64,
    pub positions: Seq<usize>,
}

impl View for ScoredEntry {
    type V = ScoredView;

    open spec fn view(&self) -> ScoredView {
        ScoredView { history: self.history, score: self.score, positions: self.positions@ }
    }
}

/// The views of a list of scored entries.
pub open spec fn scored_views(v: Seq<ScoredEntry>) -> Seq<ScoredView> {
    v.map_values(|e: ScoredEntry| e@)
}

/// The entries of `entries` that `q` matches, in their order, each with
/// its score and matched positions.
pub open spec fn scored_matches(entries: Seq<History>, q: Seq<char>) -> Seq<ScoredView>
    decreases entries.len(),
{
    if entries.len() == 0 {
        Seq::empty()
    } else {
        let m = scored_matches(entries.drop_last(), q);
        let h = entries.last();
        match skim_match(h.command@, q) {
            Some((s, pos)) => m.push(ScoredView { history: h, score: s, positions: pos }),
            None => m,
        }
    }
}

/// Every entry unranked: score 0, nothing highlighted.
pub open spec fn unranked(entries: Seq<History>) -> Seq<ScoredView> {
    entries.map_values(|h: History| ScoredView { history: h, score: 0, positions: Seq::empty() })
}

/// The key by which ranked entries are ordered.
pub open spec fn view_score(v: ScoredView) -> int {
    v.score as int
}

/// The entries as the picker lists them for `query`: all of them, in their
/// order, for an empty query; else those that the query matches, best
/// score first, ties in their order.
pub fn rank_entries(entries: Vec<History>, query: &str) -> (r: Vec<ScoredEntry>)
    ensures
        query@.len() == 0 ==> scored_views(r@) == unranked(entries@),
        query@.len() != 0 ==> is_stable_desc(
            scored_matches(entries@, query@),
            scored_views(r@),
            |v: ScoredView| view_score(v),
        ),
{
    let ghost src = entries@;
    if query.is_empty() {
        let mut r: Vec<ScoredEntry> = Vec::new();
        for h in it: entries
            invariant
                it.seq() == src,
                scored_views(r@) == unranked(it.seq().take(it.index() as int)),
        {
            let ghost before = r@;
            r.push(ScoredEntry { history: h, score: 0, positions: Vec::new() });
            proof {
                assert(scored_views(r@) =~= scored_views(before).push(r@.last()@));
                assert(unranked(it.seq().take(it.index() + 1)) =~= unranked(it.seq().take(it.index() as int)).push(r@.last()@));
            }
        }
        assert(src.take(src.len() as int) =~= src);
        return r;
    }
    let mut matched: Vec<ScoredEntry> = Vec::new();
    let mut keys: Vec<i64> = Vec::new();
    for h in it: entries
        invariant
            it.seq() == src,
            query@.len() != 0,
            matched.len() == keys.len(),
            forall|i: int| 0 <= i < matched.len() ==> (#[trigger] matched@[i]).score == keys@[i],
            scored_views(matched@) == scored_matches(it.seq().take(it.index() as int), query@),
    {
        let ghost prefix = it.seq().take(it.index() as int);
        let ghost next = it.seq().take(it.index() + 1);
        assert(next.drop_last() =~= prefix);
        assert(next.last() == h);
        let ghost before = matched@;
        match fuzzy_indices(h.command.as_str(), query) {
            Some((score, positions)) => {
                matched.push(ScoredEntry { history: h, score, positions });
                keys.push(score);
                assert(scored_views(matched@) =~= scored_views(before).push(matched@.last()@));
            },
            None => {},
        }
    }
    assert(src.take(src.len() as int) =~= src);
    let ghost mseq = matched@;
    let r = sort_desc_stable(matched, keys, Ghost(|e: ScoredEntry| e.score as int));
    proof {
        stable_desc_map(
            mseq,
            r@,
            |e: ScoredEntry| e.score as int,
            |e: ScoredEntry| e@,
            |v: ScoredView| view_score(v),
        );
        assert(mseq.map_values(|e: ScoredEntry| e@) =~= scored_views(mseq));
        assert(r@.map_values(|e: ScoredEntry| e@) =~= scored_views(r@));
    }
    r
}

} // verus!

verus! {

/// The search that refreshes the picker: the typed query as a substring
/// condition (none when nothing is typed), at most 500 entries.
pub fn refresh_filter(query: &str) -> (f: SearchFilter)
    ensures
        query@.len() == 0 ==> f.query is None,
        query@.len() != 0 ==> (f.query matches Some(q) && q@ == query@),
        f.cwd is None,
        f.session is None,
        f.hostname is None,
        f.exit is None,
        f.limit == 500,
        f.offset == 0,
{
    let mut f = SearchFilter::new(500);
    if !query.is_empty() {
        f.query = Some(query.to_owned());
    }
    f
}

/// A piece of a displayed command, highlighted or not.
pub struct Segment {
    pub text: String,
    pub highlighted: bool,
}

/// The pieces of a split command: their texts and whether each is
/// highlighted.
pub open spec fn segment_views(v: Seq<Segment>) -> Seq<(Seq<char>, bool)> {
    v.map_values(|s: Segment| (s.text@, s.highlighted))
}

/// The texts of `segs`, one after the other.
pub open spec fn joined(segs: Seq<(Seq<char>, bool)>) -> Seq<char>
    decreases segs.len(),
{
    if segs.len() == 0 {
        Seq::empty()
    } else {
        joined(segs.drop_last()) + segs.last().0
    }
}

/// Index, in the whole text, of the first character of piece `k`.
pub open spec fn piece_start(segs: Seq<(Seq<char>, bool)>, k: int) -> int {
    joined(segs.take(k)).len() as int
}

/// Whether character position `i` is one of the matched positions `pos`.
pub open spec fn marked(pos: Seq<usize>, i: int) -> bool {
    pos.contains(i as usize)
}

/// Index, in the whole text, of character `j` of piece `k`.
pub open spec fn piece_at(segs: Seq<(Seq<char>, bool)>, k: int, j: int) -> int {
    piece_start(segs, k) + j
}

/// `segs` splits `c` for display: the pieces put together give `c`, none
/// is empty, a highlighted piece is one character at a matched position, a
/// plain piece holds no matched position, and no two plain pieces are
/// next to each other.
pub open spec fn is_highlighting(c: Seq<char>, pos: Seq<usize>, segs: Seq<(Seq<char>, bool)>) -> bool {
    &&& joined(segs) == c
    &&& forall|k: int| 0 <= k < segs.len() ==> (#[trigger] segs[k]).0.len() > 0
    &&& forall|k: int|
        0 <= k < segs.len() && (#[trigger] segs[k]).1 ==> segs[k].0.len() == 1 && marked(
            pos,
            piece_start(segs, k),
        )
    &&& forall|k: int, j: int|
        0 <= k < segs.len() && !segs[k].1 && 0 <= j < segs[k].0.len() ==> !#[trigger] marked(
            pos,
            piece_at(segs, k, j),
        )
    &&& forall|k: int| 0 <= k < segs.len() - 1 ==> (#[trigger] segs[k]).1 || segs[k + 1].1
}

fn contains_index(positions: &[usize], i: usize) -> (r: bool)
    ensures
        r == positions@.contains(i),
{
    let mut j: usize = 0;
    while j < positions.len()
        invariant
            j <= positions@.len(),
            forall|k: int| 0 <= k < j ==> positions@[k] != i,
        decreases positions@.len() - j,
    {
        if positions[j] == i {
            assert(positions@[j as int] == i);
            return true;
        }
        j += 1;
    }
    false
}

proof fn lemma_joined_push(segs: Seq<(Seq<char>, bool)>, x: (Seq<char>, bool))
    ensures
        joined(segs.push(x)) == joined(segs) + x.0,
        forall|k: int| 0 <= k <= segs.len() ==> #[trigger] piece_start(segs.push(x), k) == piece_start(segs, k),
{
    assert(segs.push(x).drop_last() =~= segs);
    assert forall|k: int| 0 <= k <= segs.len() implies #[trigger] piece_start(segs.push(x), k) == piece_start(segs, k) by {
        assert(segs.push(x).take(k) =~= segs.take(k));
    }
}

proof fn lemma_push_plain(pos: Seq<usize>, sv: Seq<(Seq<char>, bool)>, bv: Seq<char>)
    requires
        is_highlighting(joined(sv), pos, sv),
        sv.len() > 0 ==> sv.last().1,
        bv.len() > 0,
        forall|i: int| joined(sv).len() <= i < joined(sv).len() + bv.len() ==> !#[trigger] marked(pos, i),
    ensures
        joined(sv.push((bv, false))) == joined(sv) + bv,
        is_highlighting(joined(sv) + bv, pos, sv.push((bv, false))),
{
    let x = (bv, false);
    let s2 = sv.push(x);
    lemma_joined_push(sv, x);
    assert(piece_start(s2, sv.len() as int) == joined(sv).len()) by {
        assert(s2.take(sv.len() as int) =~= sv);
    }
    assert forall|k: int, j: int|
        0 <= k < s2.len() && !s2[k].1 && 0 <= j < s2[k].0.len() implies !#[trigger] marked(
            pos,
            piece_at(s2, k, j),
        ) by {
        if k < sv.len() {
            assert(s2[k] == sv[k]);
            assert(piece_at(s2, k, j) == piece_at(sv, k, j));
        }
    }
    assert forall|k: int| 0 <= k < s2.len() - 1 implies (#[trigger] s2[k]).1 || s2[k + 1].1 by {
        assert(s2[k] == sv[k]);
        if k < sv.len() - 1 {
            assert(s2[k + 1] == sv[k + 1]);
        }
    }
    assert forall|k: int|
        0 <= k < s2.len() && (#[trigger] s2[k]).1 implies s2[k].0.len() == 1 && marked(
            pos,
            piece_start(s2, k),
        ) by {
        assert(s2[k] == sv[k]);
    }
    assert forall|k: int| 0 <= k < s2.len() implies (#[trigger] s2[k]).0.len() > 0 by {
        if k < sv.len() {
            assert(s2[k] == sv[k]);
        }
    }
}

proof fn lemma_push_marked(pos: Seq<usize>, sv: Seq<(Seq<char>, bool)>, c: char)
    requires
        is_highlighting(joined(sv), pos, sv),
        marked(pos, joined(sv).len() as int),
    ensures
        joined(sv.push((seq![c], true))) == joined(sv).push(c),
        is_highlighting(joined(sv).push(c), pos, sv.push((seq![c], true))),
        sv.push((seq![c], true)).last().1,
{
    let x = (seq![c], true);
    let s2 = sv.push(x);
    lemma_joined_push(sv, x);
    assert(joined(sv) + seq![c] =~= joined(sv).push(c));
    assert(piece_start(s2, sv.len() as int) == joined(sv).len()) by {
        assert(s2.take(sv.len() as int) =~= sv);
    }
    assert forall|k: int, j: int|
        0 <= k < s2.len() && !s2[k].1 && 0 <= j < s2[k].0.len() implies !#[trigger] marked(
            pos,
            piece_at(s2, k, j),
        ) by {
        assert(s2[k] == sv[k]);
        assert(piece_at(s2, k, j) == piece_at(sv, k, j));
    }
    assert forall|k: int| 0 <= k < s2.len() - 1 implies (#[trigger] s2[k]).1 || s2[k + 1].1 by {
        if k < sv.len() - 1 {
            assert(s2[k] == sv[k]);
            assert(s2[k + 1] == sv[k + 1]);
        }
    }
    assert forall|k: int|
        0 <= k < s2.len() && (#[trigger] s2[k]).1 implies s2[k].0.len() == 1 && marked(
            pos,
            piece_start(s2, k),
        ) by {
        if k < sv.len() {
            assert(s2[k] == sv[k]);
        }
    }
    assert forall|k: int| 0 <= k < s2.len() implies (#[trigger] s2[k]).0.len() > 0 by {
        if k < sv.len() {
            assert(s2[k] == sv[k]);
        }
    }
}

proof fn lemma_piece_in_joined(segs: Seq<(Seq<char>, bool)>, k: int, j: int)
    requires
        0 <= k < segs.len(),
        0 <= j < segs[k].0.len(),
    ensures
        0 <= piece_at(segs, k, j) < joined(segs).len(),
        joined(segs)[piece_at(segs, k, j)] == segs[k].0[j],
    decreases segs.len(),
{
    let p = segs.drop_last();
    if k == segs.len() - 1 {
        assert(segs.take(k) =~= p);
    } else {
        lemma_piece_in_joined(p, k, j);
        assert(segs.take(k) =~= p.take(k));
        assert(segs[k] == p[k]);
    }
}

proof fn lemma_joined_covered(segs: Seq<(Seq<char>, bool)>, i: int)
    requires
        0 <= i < joined(segs).len(),
    ensures
        exists|k: int, j: int|
            0 <= k < segs.len() && 0 <= j < segs[k].0.len() && #[trigger] piece_at(segs, k, j) == i,
    decreases segs.len(),
{
    let p = segs.drop_last();
    if i < joined(p).len() {
        lemma_joined_covered(p, i);
        let (k, j) = choose|k: int, j: int|
            0 <= k < p.len() && 0 <= j < p[k].0.len() && #[trigger] piece_at(p, k, j) == i;
        assert(segs.take(k) =~= p.take(k));
        assert(segs[k] == p[k]);
        assert(piece_at(segs, k, j) == i);
    } else {
        let k = segs.len() - 1;
        assert(segs.take(k) =~= p);
        assert(piece_at(segs, k, i - joined(p).len()) == i);
    }
}

/// In a display split, every character of the command lies in a piece,
/// and any piece that holds character `i` holds that very character and is
/// highlighted exactly when `i` is a matched position.
pub proof fn each_character_is_highlighted_iff_matched(
    c: Seq<char>,
    pos: Seq<usize>,
    segs: Seq<(Seq<char>, bool)>,
    i: int,
)
    requires
        is_highlighting(c, pos, segs),
        0 <= i < c.len(),
    ensures
        exists|k: int, j: int|
            0 <= k < segs.len() && 0 <= j < segs[k].0.len() && #[trigger] piece_at(segs, k, j) == i,
        forall|k: int, j: int|
            0 <= k < segs.len() && 0 <= j < segs[k].0.len() && #[trigger] piece_at(segs, k, j) == i
                ==> segs[k].0[j] == c[i] && (segs[k].1 <==> marked(pos, i)),
{
    lemma_joined_covered(segs, i);
    assert forall|k: int, j: int|
        0 <= k < segs.len() && 0 <= j < segs[k].0.len() && #[trigger] piece_at(segs, k, j) == i
            implies segs[k].0[j] == c[i] && (segs[k].1 <==> marked(pos, i)) by {
        lemma_piece_in_joined(segs, k, j);
        assert(segs[k].0.len() > 0);
        if segs[k].1 {
            assert(j == 0);
        }
    }
}

/// Splits `cmd` into plain runs and single highlighted characters at the
/// character positions in `positions`, for display.
pub fn highlight_segments(cmd: &str, positions: &[usize]) -> (r: Vec<Segment>)
    ensures
        is_highlighting(cmd@, positions@, segment_views(r@)),
{
    let chars = crate::text::chars_of(cmd);
    let n = chars.len();
    let mut segs: Vec<Segment> = Vec::new();
    let mut buf: Vec<char> = Vec::new();
    let mut i: usize = 0;
    proof {
        assert(joined(segment_views(segs@)) + buf@ =~= chars@.take(0));
    }
    while i < n
        invariant
            n == chars.len(),
            chars@ == cmd@,
            i <= n,
            joined(segment_views(segs@)) + buf@ == chars@.take(i as int),
            forall|p: int|
                joined(segment_views(segs@)).len() <= p < joined(segment_views(segs@)).len() + buf@.len()
                    ==> !#[trigger] marked(positions@, p),
            segs@.len() > 0 ==> segment_views(segs@).last().1,
            is_highlighting(joined(segment_views(segs@)), positions@, segment_views(segs@)),
        decreases n - i,
    {
        let c = chars[i];
        if contains_index(positions, i) {
            if buf.len() > 0 {
                let ghost sv = segment_views(segs@);
                let ghost bv = buf@;
                let text = crate::text::string_of(buf.as_slice());
                segs.push(Segment { text, highlighted: false });
                buf = Vec::new();
                proof {
                    assert(segment_views(segs@) =~= sv.push((bv, false)));
                    lemma_push_plain(positions@, sv, bv);
                }
            }
            let ghost sv1 = segment_views(segs@);
            proof {
                assert(buf@.len() == 0);
                assert(joined(sv1) + buf@ =~= joined(sv1));
                assert(joined(sv1) =~= chars@.take(i as int));
            }
            let mut one: Vec<char> = Vec::new();
            one.push(c);
            let text = crate::text::string_of(one.as_slice());
            segs.push(Segment { text, highlighted: true });
            proof {
                assert(one@ =~= seq![c]);
                assert(segment_views(segs@) =~= sv1.push((seq![c], true)));
                lemma_push_marked(positions@, sv1, c);
                assert(chars@.take(i as int).push(c) =~= chars@.take(i + 1));
                assert(joined(segment_views(segs@)) + buf@ =~= joined(segment_views(segs@)));
            }
        } else {
            let ghost sv = segment_views(segs@);
            let ghost old_buf = buf@;
            buf.push(c);
            proof {
                assert(buf@ == old_buf.push(c));
                assert(joined(sv) + old_buf == chars@.take(i as int));
                assert(joined(sv) + buf@ =~= (joined(sv) + old_buf).push(c));
                assert(chars@.take(i as int).push(c) =~= chars@.take(i + 1));
                assert(joined(sv).len() + old_buf.len() == i);
                assert(!marked(positions@, i as int));
            }
        }
        i += 1;
    }
    if buf.len() > 0 {
        let ghost sv = segment_views(segs@);
        let ghost bv = buf@;
        let text = crate::text::string_of(buf.as_slice());
        segs.push(Segment { text, highlighted: false });
        proof {
            assert(segment_views(segs@) =~= sv.push((bv, false)));
            lemma_push_plain(positions@, sv, bv);
        }
    } else {
        assert(joined(segment_views(segs@)) + buf@ =~= joined(segment_views(segs@)));
    }
    assert(chars@.take(n as int) =~= chars@);
    segs
}

} // verus!

verus! {

proof fn lemma_scored_matches(entries: Seq<History>, q: Seq<char>)
    ensures
        forall|i: int|
            0 <= i < scored_matches(entries, q).len() ==> entries.contains(
                (#[trigger] scored_matches(entries, q)[i]).history,
            ) && skim_match(scored_matches(entries, q)[i].history.command@, q) == Some(
                (scored_matches(entries, q)[i].score, scored_matches(entries, q)[i].positions),
            ),
        forall|j: int|
            0 <= j < entries.len() && (#[trigger] skim_match(entries[j].command@, q)) is Some ==> exists|i: int|
                0 <= i < scored_matches(entries, q).len() && scored_matches(entries, q)[i].history == entries[j],
    decreases entries.len(),
{
    if entries.len() > 0 {
        let p = entries.drop_last();
        lemma_scored_matches(p, q);
        let m = scored_matches(p, q);
        let h = entries.last();
        assert forall|i: int|
            0 <= i < scored_matches(entries, q).len() implies entries.contains(
                (#[trigger] scored_matches(entries, q)[i]).history,
            ) && skim_match(scored_matches(entries, q)[i].history.command@, q) == Some(
                (scored_matches(entries, q)[i].score, scored_matches(entries, q)[i].positions),
            ) by {
            if i < m.len() {
                assert(scored_matches(entries, q)[i] == m[i]);
                let k = choose|k: int| 0 <= k < p.len() && p[k] == m[i].history;
                assert(entries[k] == p[k]);
            } else {
                assert(entries[entries.len() - 1] == h);
            }
        }
        assert forall|j: int|
            0 <= j < entries.len() && (#[trigger] skim_match(entries[j].command@, q)) is Some implies exists|i: int|
                0 <= i < scored_matches(entries, q).len() && scored_matches(entries, q)[i].history == entries[j] by {
            if j < entries.len() - 1 {
                assert(entries[j] == p[j]);
                assert(skim_match(p[j].command@, q) is Some);
                let i = choose|i: int| 0 <= i < m.len() && m[i].history == p[j];
                assert(scored_matches(entries, q)[i] == m[i]);
            } else {
                assert(scored_matches(entries, q)[m.len() as int].history == h);
            }
        }
    }
}

/// The picker's ranking for a typed query lists exactly the entries the
/// query matches, each with its own score and matched positions, best
/// score first.
pub proof fn ranked_entries_are_the_matches(entries: Seq<History>, q: Seq<char>, r: Seq<ScoredView>)
    requires
        is_stable_desc(scored_matches(entries, q), r, |v: ScoredView| view_score(v)),
    ensures
        forall|i: int|
            0 <= i < r.len() ==> entries.contains((#[trigger] r[i]).history) && skim_match(
                r[i].history.command@,
                q,
            ) == Some((r[i].score, r[i].positions)),
        forall|j: int|
            0 <= j < entries.len() && (#[trigger] skim_match(entries[j].command@, q)) is Some ==> exists|i: int|
                0 <= i < r.len() && r[i].history == entries[j],
        forall|i: int, j: int| 0 <= i < j < r.len() ==> (#[trigger] r[i]).score >= (#[trigger] r[j]).score,
{
    let m = scored_matches(entries, q);
    lemma_scored_matches(entries, q);
    crate::order::stable_desc_is_sorted_permutation(m, r, |v: ScoredView| view_score(v));
    assert forall|i: int|
        0 <= i < r.len() implies entries.contains((#[trigger] r[i]).history) && skim_match(
            r[i].history.command@,
            q,
        ) == Some((r[i].score, r[i].positions)) by {
        assert(m.contains(r[i]));
        let k = choose|k: int| 0 <= k < m.len() && m[k] == r[i];
        assert(m[k] == r[i]);
    }
    assert forall|j: int|
        0 <= j < entries.len() && (#[trigger] skim_match(entries[j].command@, q)) is Some implies exists|i: int|
            0 <= i < r.len() && r[i].history == entries[j] by {
        let k = choose|k: int| 0 <= k < m.len() && m[k].history == entries[j];
        assert(r.contains(m[k]));
        let i = choose|i: int| 0 <= i < r.len() && r[i] == m[k];
        assert(r[i].history == entries[j]);
    }
    assert forall|i: int, j: int| 0 <= i < j < r.len() implies (#[trigger] r[i]).score >= (#[trigger] r[j]).score by {
        assert(view_score(r[i]) >= view_score(r[j]));
    }
}

} // verus!
