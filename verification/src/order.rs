//! Stable orderings as `sort_by` gives them: "largest first" by numeric
//! keys, and "alphabetical" by text then number; ties keep their original
//! order.
use vstd::prelude::*;

verus! {

/// Keys compare lexicographically: first component, then second.
pub open spec fn key_gt(a: (i64, i64), b: (i64, i64)) -> bool {
    a.0 > b.0 || (a.0 == b.0 && a.1 > b.1)
}

/// `a` comes before `b`: larger key first, equal keys by original index.
pub open spec fn ranks_before(keys: Seq<(i64, i64)>, a: int, b: int) -> bool {
    key_gt(keys[a], keys[b]) || (keys[a] == keys[b] && a < b)
}

/// `out` lists each index of `keys` once, larger keys first and ties in
/// their original order.
pub open spec fn is_stable_desc_order(keys: Seq<(i64, i64)>, out: Seq<usize>) -> bool {
    &&& out.len() == keys.len()
    &&& forall|k: int| 0 <= k < out.len() ==> #[trigger] out[k] < keys.len()
    &&& forall|v: usize| v < keys.len() ==> #[trigger] out.contains(v)
    &&& forall|p: int, q: int|
        0 <= p < q < out.len() ==> ranks_before(keys, #[trigger] out[p] as int, #[trigger] out[q] as int)
}

fn key_greater(a: (i64, i64), b: (i64, i64)) -> (r: bool)
    ensures
        r == key_gt(a, b),
{
    a.0 > b.0 || (a.0 == b.0 && a.1 > b.1)
}

/// The indices of `keys` in stable descending order of their keys.
pub fn stable_desc_order(keys: &Vec<(i64, i64)>) -> (out: Vec<usize>)
    ensures
        is_stable_desc_order(keys@, out@),
{
    let n = keys.len();
    let mut out: Vec<usize> = Vec::new();
    let mut i: usize = 0;
    while i < n
        invariant
            n == keys@.len(),
            i <= n,
            out@.len() == i,
            forall|k: int| 0 <= k < out@.len() ==> #[trigger] out@[k] < i,
            forall|v: usize| v < i ==> #[trigger] out@.contains(v),
            forall|p: int, q: int|
                0 <= p < q < out@.len() ==> ranks_before(keys@, #[trigger] out@[p] as int, #[trigger] out@[q] as int),
        decreases n - i,
    {
        let ki = keys[i];
        // Insert after every entry whose key is at least `ki`.
        let mut pos: usize = 0;
        while pos < out.len() && !key_greater(ki, keys[out[pos]])
            invariant
                n == keys@.len(),
                i < n,
                ki == keys@[i as int],
                pos <= out@.len(),
                forall|k: int| 0 <= k < out@.len() ==> #[trigger] out@[k] < i,
                forall|k: int| 0 <= k < pos ==> !key_gt(ki, keys@[#[trigger] out@[k] as int]),
            decreases out@.len() - pos,
        {
            pos += 1;
        }
        let ghost before = out@;
        proof {
            // Everything from `pos` on has a smaller key than `ki`.
            assert forall|k: int| pos <= k < before.len() implies key_gt(
                ki,
                keys@[#[trigger] before[k] as int],
            ) by {
                if k > pos {
                    assert(ranks_before(keys@, before[pos as int] as int, before[k] as int));
                }
            }
        }
        out.insert(pos, i);
        proof {
            assert forall|k: int| 0 <= k < out@.len() implies #[trigger] out@[k] < i + 1 by {
                if k < pos {
                    assert(out@[k] == before[k]);
                } else if k > pos {
                    assert(out@[k] == before[k - 1]);
                }
            }
            assert forall|v: usize| v < i + 1 implies #[trigger] out@.contains(v) by {
                if v == i {
                    assert(out@[pos as int] == i);
                } else {
                    assert(before.contains(v));
                    let k = choose|k: int| 0 <= k < before.len() && before[k] == v;
                    if k < pos {
                        assert(out@[k] == before[k]);
                    } else {
                        assert(out@[k + 1] == before[k]);
                    }
                }
            }
            assert forall|p: int, q: int| 0 <= p < q < out@.len() implies ranks_before(
                keys@,
                #[trigger] out@[p] as int,
                #[trigger] out@[q] as int,
            ) by {
                if q < pos {
                    assert(out@[p] == before[p] && out@[q] == before[q]);
                } else if q == pos {
                    assert(out@[p] == before[p]);
                    assert(!key_gt(ki, keys@[before[p] as int]));
                    assert(before[p] < i);
                } else if p < pos {
                    assert(out@[p] == before[p] && out@[q] == before[q - 1]);
                    assert(ranks_before(keys@, before[p] as int, before[q - 1] as int));
                } else if p == pos {
                    assert(out@[q] == before[q - 1]);
                    assert(key_gt(ki, keys@[before[q - 1] as int]));
                } else {
                    assert(out@[p] == before[p - 1] && out@[q] == before[q - 1]);
                }
            }
        }
        i += 1;
    }
    out
}

// ---- text order ------------------------------------------------------------------------

/// Index of the first difference between `a` and `b` at or after `i`, or
/// the shorter length when one is a prefix of the other.
pub open spec fn first_diff(a: Seq<char>, b: Seq<char>, i: nat) -> nat
    decreases a.len() - i,
{
    if i < a.len() && i < b.len() && a[i as int] == b[i as int] {
        first_diff(a, b, i + 1)
    } else {
        i
    }
}

/// `a` sorts before `b` as `String`s do: by the first differing character,
/// a proper prefix first.
pub open spec fn text_lt(a: Seq<char>, b: Seq<char>) -> bool {
    let d = first_diff(a, b, 0) as int;
    (d < a.len() && d < b.len() && (a[d] as int) < (b[d] as int)) || (d == a.len() && d < b.len())
}

/// `d` is where `a` and `b` first differ.
pub open spec fn diff_at(a: Seq<char>, b: Seq<char>, d: int) -> bool {
    &&& 0 <= d <= a.len()
    &&& d <= b.len()
    &&& forall|t: int| 0 <= t < d ==> a[t] == b[t]
    &&& (d < a.len() && d < b.len()) ==> a[d] != b[d]
}

proof fn lemma_first_diff_from(a: Seq<char>, b: Seq<char>, i: nat)
    requires
        i <= a.len(),
        i <= b.len(),
        forall|t: int| 0 <= t < i ==> a[t] == b[t],
    ensures
        diff_at(a, b, first_diff(a, b, i) as int),
    decreases a.len() - i,
{
    if i < a.len() && i < b.len() && a[i as int] == b[i as int] {
        lemma_first_diff_from(a, b, i + 1);
    }
}

proof fn lemma_diff_at_unique(a: Seq<char>, b: Seq<char>, d: int, e: int)
    requires
        diff_at(a, b, d),
        diff_at(a, b, e),
    ensures
        d == e,
{
    if d < e {
        assert(a[d] == b[d]);
    } else if e < d {
        assert(a[e] == b[e]);
    }
}

pub proof fn lemma_first_diff(a: Seq<char>, b: Seq<char>)
    ensures
        diff_at(a, b, first_diff(a, b, 0) as int),
        first_diff(a, b, 0) == first_diff(b, a, 0),
{
    lemma_first_diff_from(a, b, 0);
    lemma_first_diff_from(b, a, 0);
    lemma_diff_at_unique(a, b, first_diff(a, b, 0) as int, first_diff(b, a, 0) as int);
}

/// Text order is a strict total order.
pub proof fn lemma_text_order(a: Seq<char>, b: Seq<char>, c: Seq<char>)
    ensures
        !text_lt(a, a),
        text_lt(a, b) ==> !text_lt(b, a),
        !text_lt(a, b) && !text_lt(b, a) ==> a == b,
        text_lt(a, b) && text_lt(b, c) ==> text_lt(a, c),
{
    lemma_first_diff(a, a);
    lemma_first_diff(a, b);
    lemma_first_diff(b, c);
    lemma_first_diff(a, c);
    let x = first_diff(a, b, 0) as int;
    let y = first_diff(b, c, 0) as int;
    let z = first_diff(a, c, 0) as int;
    if !text_lt(a, b) && !text_lt(b, a) {
        assert(a =~= b);
    }
    if text_lt(a, b) && text_lt(b, c) {
        let m = if x < y {
            x
        } else {
            y
        };
        assert forall|t: int| 0 <= t < m implies a[t] == c[t] by {
            assert(a[t] == b[t]);
            assert(b[t] == c[t]);
        }
        if x != y {
            assert(diff_at(a, c, m));
            lemma_diff_at_unique(a, c, m, z);
        } else {
            if x < a.len() && x < b.len() && x < c.len() {
                assert((a[x] as int) < (b[x] as int));
                assert((b[x] as int) < (c[x] as int));
                assert(diff_at(a, c, x));
                lemma_diff_at_unique(a, c, x, z);
            } else {
                assert(diff_at(a, c, x));
                lemma_diff_at_unique(a, c, x, z);
            }
        }
    }
}

/// Keys ordered by text, then by number.
pub open spec fn text_key_lt(a: (Seq<char>, i64), b: (Seq<char>, i64)) -> bool {
    text_lt(a.0, b.0) || (a.0 == b.0 && a.1 < b.1)
}

/// `a` comes before `b`: smaller key first, equal keys by original index.
pub open spec fn text_ranks_before(keys: Seq<(Seq<char>, i64)>, a: int, b: int) -> bool {
    text_key_lt(keys[a], keys[b]) || (keys[a] == keys[b] && a < b)
}

/// `out` lists each index of `keys` once, smaller keys first and ties in
/// their original order.
pub open spec fn is_stable_text_order(keys: Seq<(Seq<char>, i64)>, out: Seq<usize>) -> bool {
    &&& out.len() == keys.len()
    &&& forall|k: int| 0 <= k < out.len() ==> #[trigger] out[k] < keys.len()
    &&& forall|v: usize| v < keys.len() ==> #[trigger] out.contains(v)
    &&& forall|p: int, q: int|
        0 <= p < q < out.len() ==> text_ranks_before(keys, #[trigger] out[p] as int, #[trigger] out[q] as int)
}

pub open spec fn text_key_views(keys: Seq<(Vec<char>, i64)>) -> Seq<(Seq<char>, i64)> {
    keys.map_values(|k: (Vec<char>, i64)| (k.0@, k.1))
}

/// Whether `a` sorts before `b`.
pub fn text_less(a: &Vec<char>, b: &Vec<char>) -> (r: bool)
    ensures
        r == text_lt(a@, b@),
{
    let mut i: usize = 0;
    while i < a.len() && i < b.len() && a[i] == b[i]
        invariant
            i <= a@.len(),
            i <= b@.len(),
            first_diff(a@, b@, 0) == first_diff(a@, b@, i as nat),
        decreases a@.len() - i,
    {
        i += 1;
    }
    assert(first_diff(a@, b@, i as nat) == i);
    if i < a.len() && i < b.len() {
        a[i] < b[i]
    } else {
        i == a.len() && i < b.len()
    }
}

fn key_less(a: &(Vec<char>, i64), b: &(Vec<char>, i64)) -> (r: bool)
    ensures
        r == text_key_lt((a.0@, a.1), (b.0@, b.1)),
{
    if text_less(&a.0, &b.0) {
        return true;
    }
    if text_less(&b.0, &a.0) {
        return false;
    }
    proof {
        lemma_text_order(a.0@, b.0@, b.0@);
    }
    a.1 < b.1
}

/// The indices of `keys` in stable ascending order of their keys.
pub fn stable_text_order(keys: &Vec<(Vec<char>, i64)>) -> (out: Vec<usize>)
    ensures
        is_stable_text_order(text_key_views(keys@), out@),
{
    let ghost kv = text_key_views(keys@);
    let n = keys.len();
    let mut out: Vec<usize> = Vec::new();
    let mut i: usize = 0;
    while i < n
        invariant
            n == keys@.len(),
            kv == text_key_views(keys@),
            kv.len() == n,
            i <= n,
            out@.len() == i,
            forall|k: int| 0 <= k < out@.len() ==> #[trigger] out@[k] < i,
            forall|v: usize| v < i ==> #[trigger] out@.contains(v),
            forall|p: int, q: int|
                0 <= p < q < out@.len() ==> text_ranks_before(kv, #[trigger] out@[p] as int, #[trigger] out@[q] as int),
        decreases n - i,
    {
        let ghost ki = kv[i as int];
        // Insert after every entry whose key is at most `ki`.
        let mut pos: usize = 0;
        while pos < out.len() && !key_less(&keys[i], &keys[out[pos]])
            invariant
                n == keys@.len(),
                kv == text_key_views(keys@),
                i < n,
                ki == kv[i as int],
                pos <= out@.len(),
                forall|k: int| 0 <= k < out@.len() ==> #[trigger] out@[k] < i,
                forall|k: int| 0 <= k < pos ==> !text_key_lt(ki, kv[#[trigger] out@[k] as int]),
            decreases out@.len() - pos,
        {
            assert(kv[out@[pos as int] as int] == (keys@[out@[pos as int] as int].0@, keys@[out@[pos as int] as int].1));
            pos += 1;
        }
        let ghost before = out@;
        proof {
            if pos < before.len() {
                assert(kv[before[pos as int] as int] == (keys@[before[pos as int] as int].0@, keys@[before[pos as int] as int].1));
                assert(text_key_lt(ki, kv[before[pos as int] as int]));
            }
            // Everything from `pos` on has a larger key than `ki`.
            assert forall|k: int| pos <= k < before.len() implies text_key_lt(
                ki,
                kv[#[trigger] before[k] as int],
            ) by {
                if k > pos {
                    let m = kv[before[pos as int] as int];
                    let w = kv[before[k] as int];
                    assert(text_ranks_before(kv, before[pos as int] as int, before[k] as int));
                    lemma_text_order(ki.0, m.0, w.0);
                }
            }
        }
        out.insert(pos, i);
        proof {
            assert forall|k: int| 0 <= k < out@.len() implies #[trigger] out@[k] < i + 1 by {
                if k < pos {
                    assert(out@[k] == before[k]);
                } else if k > pos {
                    assert(out@[k] == before[k - 1]);
                }
            }
            assert forall|v: usize| v < i + 1 implies #[trigger] out@.contains(v) by {
                if v == i {
                    assert(out@[pos as int] == i);
                } else {
                    assert(before.contains(v));
                    let k = choose|k: int| 0 <= k < before.len() && before[k] == v;
                    if k < pos {
                        assert(out@[k] == before[k]);
                    } else {
                        assert(out@[k + 1] == before[k]);
                    }
                }
            }
            assert forall|p: int, q: int| 0 <= p < q < out@.len() implies text_ranks_before(
                kv,
                #[trigger] out@[p] as int,
                #[trigger] out@[q] as int,
            ) by {
                if q < pos {
                    assert(out@[p] == before[p] && out@[q] == before[q]);
                } else if q == pos {
                    assert(out@[p] == before[p]);
                    let m = kv[before[p] as int];
                    assert(!text_key_lt(ki, m));
                    lemma_text_order(ki.0, m.0, m.0);
                    assert(before[p] < i);
                } else if p < pos {
                    assert(out@[p] == before[p] && out@[q] == before[q - 1]);
                    assert(text_ranks_before(kv, before[p] as int, before[q - 1] as int));
                } else if p == pos {
                    assert(out@[q] == before[q - 1]);
                    assert(text_key_lt(ki, kv[before[q - 1] as int]));
                } else {
                    assert(out@[p] == before[p - 1] && out@[q] == before[q - 1]);
                }
            }
        }
        i += 1;
    }
    out
}

} // verus!
