//! Stable ordering by a descending integer key.
use vstd::prelude::*;

verus! {

/// `p` places the elements of `src` in `dst`: `dst[i]` is `src[p[i]]`,
/// no element is used twice, keys do not increase along `dst`, and
/// elements with equal keys keep their order from `src`.
pub open spec fn arranges_desc<T>(src: Seq<T>, dst: Seq<T>, key: spec_fn(T) -> int, p: Seq<int>) -> bool {
    &&& dst.len() == src.len()
    &&& p.len() == dst.len()
    &&& forall|i: int| 0 <= i < p.len() ==> 0 <= #[trigger] p[i] < src.len()
    &&& forall|i: int| 0 <= i < p.len() ==> #[trigger] dst[i] == src[p[i]]
    &&& forall|i: int, j: int| 0 <= i < j < p.len() ==> #[trigger] p[i] != #[trigger] p[j]
    &&& forall|i: int, j: int|
        0 <= i < j < dst.len() ==> key(#[trigger] dst[i]) >= key(#[trigger] dst[j])
    &&& forall|i: int, j: int|
        0 <= i < j < dst.len() && key(#[trigger] dst[i]) == key(#[trigger] dst[j]) ==> p[i] < p[j]
}

/// `dst` is `src` sorted by descending `key`, with ties in their order
/// from `src` (a stable sort).
pub open spec fn is_stable_desc<T>(src: Seq<T>, dst: Seq<T>, key: spec_fn(T) -> int) -> bool {
    exists|p: Seq<int>| arranges_desc(src, dst, key, p)
}

/// A stable descending arrangement stays one when every element is mapped
/// by a function that keeps the key.
pub proof fn stable_desc_map<T, U>(
    src: Seq<T>,
    dst: Seq<T>,
    key: spec_fn(T) -> int,
    f: spec_fn(T) -> U,
    key_u: spec_fn(U) -> int,
)
    requires
        is_stable_desc(src, dst, key),
        forall|t: T| #[trigger] key_u(f(t)) == key(t),
    ensures
        is_stable_desc(src.map_values(f), dst.map_values(f), key_u),
{
    let p = choose|p: Seq<int>| arranges_desc(src, dst, key, p);
    let s2 = src.map_values(f);
    let d2 = dst.map_values(f);
    assert forall|i: int| 0 <= i < p.len() implies #[trigger] d2[i] == s2[p[i]] by {
        assert(dst[i] == src[p[i]]);
    }
    assert forall|i: int, j: int| 0 <= i < j < d2.len() implies key_u(#[trigger] d2[i]) >= key_u(#[trigger] d2[j]) by {
        assert(key_u(f(dst[i])) == key(dst[i]));
        assert(key_u(f(dst[j])) == key(dst[j]));
        assert(key(dst[i]) >= key(dst[j]));
    }
    assert forall|i: int, j: int|
        0 <= i < j < d2.len() && key_u(#[trigger] d2[i]) == key_u(#[trigger] d2[j]) implies p[i] < p[j] by {
        assert(key_u(f(dst[i])) == key(dst[i]));
        assert(key_u(f(dst[j])) == key(dst[j]));
    }
    assert(arranges_desc(s2, d2, key_u, p));
}

/// Sorts `items` by descending key, keeping the order of items with equal
/// keys; `keys[i]` is the key of `items[i]`.
pub fn sort_desc_stable<T>(items: Vec<T>, keys: Vec<i64>, Ghost(key): Ghost<spec_fn(T) -> int>) -> (r: Vec<T>)
    requires
        items.len() == keys.len(),
        forall|i: int| 0 <= i < items.len() ==> key(#[trigger] items@[i]) == keys@[i] as int,
    ensures
        is_stable_desc(items@, r@, key),
{
    let ghost src = items@;
    let ghost sk = keys@;
    let ghost n = src.len() as int;
    let mut items = items;
    let mut keys = keys;
    let mut out: Vec<T> = Vec::new();
    let mut out_keys: Vec<i64> = Vec::new();
    let ghost mut p: Seq<int> = Seq::empty();
    while items.len() > 0
        invariant
            items.len() == keys.len(),
            items.len() <= n,
            n == src.len(),
            sk.len() == n,
            items@ == src.take(items.len() as int),
            keys@ == sk.take(keys.len() as int),
            forall|i: int| 0 <= i < n ==> key(#[trigger] src[i]) == sk[i] as int,
            out.len() == out_keys.len(),
            out.len() == p.len(),
            p.len() == n - items.len(),
            forall|i: int| 0 <= i < p.len() ==> items.len() <= #[trigger] p[i] < n,
            forall|i: int| 0 <= i < p.len() ==> #[trigger] out@[i] == src[p[i]],
            forall|i: int| 0 <= i < p.len() ==> #[trigger] out_keys@[i] == sk[p[i]],
            forall|i: int, j: int| 0 <= i < j < p.len() ==> #[trigger] p[i] != #[trigger] p[j],
            forall|i: int, j: int| 0 <= i < j < p.len() ==> #[trigger] out_keys@[i] >= #[trigger] out_keys@[j],
            forall|i: int, j: int|
                0 <= i < j < p.len() && #[trigger] out_keys@[i] == #[trigger] out_keys@[j] ==> p[i] < p[j],
        decreases items.len(),
    {
        let ghost k = items.len() - 1;
        let e = items.pop().unwrap();
        let ke = keys.pop().unwrap();
        assert(e == src[k]);
        assert(ke == sk[k]);
        assert(items@ =~= src.take(k));
        assert(keys@ =~= sk.take(k));
        let mut pos: usize = 0;
        while pos < out_keys.len() && out_keys[pos] > ke
            invariant
                pos <= out_keys.len(),
                forall|j: int| 0 <= j < pos ==> #[trigger] out_keys@[j] > ke,
            decreases out_keys.len() - pos,
        {
            pos += 1;
        }
        let ghost old_keys = out_keys@;
        let ghost old_out = out@;
        let ghost old_p = p;
        out.insert(pos, e);
        out_keys.insert(pos, ke);
        proof {
            p = old_p.insert(pos as int, k);
            assert forall|i: int| 0 <= i < p.len() implies #[trigger] out_keys@[i] == sk[p[i]] by {
                if i < pos {
                    assert(out_keys@[i] == old_keys[i]);
                } else if i > pos {
                    assert(out_keys@[i] == old_keys[i - 1]);
                }
            }
            assert forall|i: int| 0 <= i < p.len() implies #[trigger] out@[i] == src[p[i]] by {
                if i < pos {
                    assert(out@[i] == old_out[i]);
                } else if i > pos {
                    assert(out@[i] == old_out[i - 1]);
                }
            }
            assert forall|i: int| 0 <= i < p.len() implies k <= #[trigger] p[i] < n by {
                if i < pos {
                    assert(p[i] == old_p[i]);
                } else if i > pos {
                    assert(p[i] == old_p[i - 1]);
                }
            }
            assert forall|i: int, j: int| 0 <= i < j < p.len() implies #[trigger] p[i] != #[trigger] p[j] by {
                if i != pos && j != pos {
                    let i0 = if i < pos { i } else { i - 1 };
                    let j0 = if j < pos { j } else { j - 1 };
                    assert(p[i] == old_p[i0]);
                    assert(p[j] == old_p[j0]);
                } else if i == pos {
                    assert(p[j] == old_p[j - 1]);
                } else {
                    if i < pos {
                        assert(p[i] == old_p[i]);
                    }
                }
            }
            assert forall|i: int, j: int| 0 <= i < j < p.len() implies #[trigger] out_keys@[i] >= #[trigger] out_keys@[j] by {
                if i != pos && j != pos {
                    let i0 = if i < pos { i } else { i - 1 };
                    let j0 = if j < pos { j } else { j - 1 };
                    assert(out_keys@[i] == old_keys[i0]);
                    assert(out_keys@[j] == old_keys[j0]);
                } else if i == pos {
                    assert(out_keys@[j] == old_keys[j - 1]);
                    if j - 1 > pos {
                        assert(old_keys[pos as int] >= old_keys[j - 1]);
                    }
                } else {
                    assert(out_keys@[i] == old_keys[i]);
                    assert(old_keys[i] > ke);
                }
            }
            assert forall|i: int, j: int|
                0 <= i < j < p.len() && #[trigger] out_keys@[i] == #[trigger] out_keys@[j] implies p[i] < p[j] by {
                if i != pos && j != pos {
                    let i0 = if i < pos { i } else { i - 1 };
                    let j0 = if j < pos { j } else { j - 1 };
                    assert(out_keys@[i] == old_keys[i0]);
                    assert(out_keys@[j] == old_keys[j0]);
                    assert(p[i] == old_p[i0]);
                    assert(p[j] == old_p[j0]);
                } else if i == pos {
                    assert(p[j] == old_p[j - 1]);
                } else {
                    assert(out_keys@[i] == old_keys[i]);
                    assert(old_keys[i] > ke);
                }
            }
        }
    }
    proof {
        assert forall|i: int, j: int| 0 <= i < j < out@.len() implies key(#[trigger] out@[i]) >= key(#[trigger] out@[j]) by {
            assert(out_keys@[i] >= out_keys@[j]);
            assert(out@[i] == src[p[i]]);
            assert(out@[j] == src[p[j]]);
            assert(key(src[p[i]]) == sk[p[i]] as int);
            assert(key(src[p[j]]) == sk[p[j]] as int);
        }
        assert forall|i: int, j: int|
            0 <= i < j < out@.len() && key(#[trigger] out@[i]) == key(#[trigger] out@[j]) implies p[i] < p[j] by {
            assert(out@[i] == src[p[i]]);
            assert(out@[j] == src[p[j]]);
            assert(key(src[p[i]]) == sk[p[i]] as int);
            assert(key(src[p[j]]) == sk[p[j]] as int);
            assert(out_keys@[i] == out_keys@[j]);
        }
        assert(arranges_desc(src, out@, key, p));
    }
    out
}

} // verus!

verus! {

/// A stable descending sort neither drops nor invents an element: the
/// result has the same length, every result element comes from the source,
/// every source element appears in the result, and keys never increase.
pub proof fn stable_desc_is_sorted_permutation<T>(src: Seq<T>, dst: Seq<T>, key: spec_fn(T) -> int)
    requires
        is_stable_desc(src, dst, key),
    ensures
        dst.len() == src.len(),
        forall|i: int| 0 <= i < dst.len() ==> src.contains(#[trigger] dst[i]),
        forall|j: int| 0 <= j < src.len() ==> dst.contains(#[trigger] src[j]),
        forall|i: int, j: int| 0 <= i < j < dst.len() ==> key(#[trigger] dst[i]) >= key(#[trigger] dst[j]),
{
    broadcast use vstd::seq_lib::seq_to_set_is_finite;
    let p = choose|p: Seq<int>| arranges_desc(src, dst, key, p);
    let n = src.len() as int;
    assert forall|i: int| 0 <= i < dst.len() implies src.contains(#[trigger] dst[i]) by {
        assert(dst[i] == src[p[i]]);
    }
    assert(p.no_duplicates()) by {
        assert forall|i: int, j: int| 0 <= i < p.len() && 0 <= j < p.len() && i != j implies p[i] != p[j] by {
            if i < j {
                assert(p[i] != p[j]);
            } else {
                assert(p[j] != p[i]);
            }
        }
    }
    p.unique_seq_to_set();
    let s = p.to_set();
    let r = vstd::set_lib::set_int_range(0, n);
    vstd::set_lib::lemma_int_range(0, n);
    assert(s.subset_of(r)) by {
        assert forall|x: int| s.contains(x) implies r.contains(x) by {
            let i = choose|i: int| 0 <= i < p.len() && p[i] == x;
            assert(0 <= p[i] < n);
        }
    }
    vstd::set_lib::lemma_subset_equality(s, r);
    assert forall|j: int| 0 <= j < src.len() implies dst.contains(#[trigger] src[j]) by {
        assert(r.contains(j));
        assert(s.contains(j));
        let i = choose|i: int| 0 <= i < p.len() && p[i] == j;
        assert(dst[i] == src[j]);
    }
}

} // verus!
