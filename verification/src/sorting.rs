//! Stable sorting by a key with a strict weak order: the keys that release
//! listings are ordered by (oldest first, newest first) and the one sort
//! they share.
use vstd::prelude::*;

use crate::order::{lemma_text_order, text_less, text_lt};

verus! {

/// A key with a strict weak order and an executable comparison.
pub trait SortKey: Sized {
    spec fn key_lt(self, other: Self) -> bool;

    proof fn lemma_key_order(a: Self, b: Self, c: Self)
        ensures
            !a.key_lt(a),
            a.key_lt(b) && b.key_lt(c) ==> a.key_lt(c),
            a.key_lt(b) ==> a.key_lt(c) || c.key_lt(b),
    ;

    fn less(&self, other: &Self) -> (r: bool)
        ensures
            r == self.key_lt(*other),
    ;
}

/// `a` comes before `b`: a smaller key first, keys that do not differ in
/// their original order.
pub open spec fn ranks_before<K: SortKey>(keys: Seq<K>, a: int, b: int) -> bool {
    keys[a].key_lt(keys[b]) || (!keys[b].key_lt(keys[a]) && a < b)
}

/// `out` lists each index of `keys` once, in stable ascending key order.
pub open spec fn is_stable_order<K: SortKey>(keys: Seq<K>, out: Seq<usize>) -> bool {
    &&& out.len() == keys.len()
    &&& forall|k: int| 0 <= k < out.len() ==> #[trigger] out[k] < keys.len()
    &&& forall|v: usize| v < keys.len() ==> #[trigger] out.contains(v)
    &&& forall|p: int, q: int|
        0 <= p < q < out.len() ==> ranks_before(keys, #[trigger] out[p] as int, #[trigger] out[q] as int)
}

/// The indices of `keys` in stable ascending order of their keys.
pub fn stable_order<K: SortKey>(keys: &Vec<K>) -> (out: Vec<usize>)
    ensures
        is_stable_order(keys@, out@),
{
    let ghost kv = keys@;
    let n = keys.len();
    let mut out: Vec<usize> = Vec::new();
    let mut i: usize = 0;
    while i < n
        invariant
            n == keys@.len(),
            kv == keys@,
            i <= n,
            out@.len() == i,
            forall|k: int| 0 <= k < out@.len() ==> #[trigger] out@[k] < i,
            forall|v: usize| v < i ==> #[trigger] out@.contains(v),
            forall|p: int, q: int|
                0 <= p < q < out@.len() ==> ranks_before(kv, #[trigger] out@[p] as int, #[trigger] out@[q] as int),
        decreases n - i,
    {
        let ghost ki = kv[i as int];
        // After every entry whose key is not above `ki`.
        let mut pos: usize = 0;
        while pos < out.len() && !keys[i].less(&keys[out[pos]])
            invariant
                n == keys@.len(),
                kv == keys@,
                i < n,
                ki == kv[i as int],
                pos <= out@.len(),
                forall|k: int| 0 <= k < out@.len() ==> #[trigger] out@[k] < i,
                forall|k: int| 0 <= k < pos ==> !ki.key_lt(kv[#[trigger] out@[k] as int]),
            decreases out@.len() - pos,
        {
            pos += 1;
        }
        let ghost before = out@;
        proof {
            assert forall|k: int| pos <= k < before.len() implies ki.key_lt(kv[#[trigger] before[k] as int]) by {
                if k > pos {
                    let m = kv[before[pos as int] as int];
                    let w = kv[before[k] as int];
                    assert(ranks_before(kv, before[pos as int] as int, before[k] as int));
                    K::lemma_key_order(ki, m, w);
                    K::lemma_key_order(w, m, w);
                }
            }
        }
        out.insert(pos, i);
        proof {
            assert forall|k: int| 0 <= k < out@.len() implies #[trigger] out@[k] < i + 1 by {
                if k < pos {
                    assert(out@[k] == before[k]);
                } else if k > pos {
                    assert(out@[k] == before[k - 1]);
                }
            }
            assert forall|v: usize| v < i + 1 implies #[trigger] out@.contains(v) by {
                if v == i {
                    assert(out@[pos as int] == i);
                } else {
                    assert(before.contains(v));
                    let k = choose|k: int| 0 <= k < before.len() && before[k] == v;
                    if k < pos {
                        assert(out@[k] == before[k]);
                    } else {
                        assert(out@[k + 1] == before[k]);
                    }
                }
            }
            assert forall|p: int, q: int| 0 <= p < q < out@.len() implies ranks_before(
                kv,
                #[trigger] out@[p] as int,
                #[trigger] out@[q] as int,
            ) by {
                if q < pos {
                    assert(out@[p] == before[p] && out@[q] == before[q]);
                } else if q == pos {
                    assert(out@[p] == before[p]);
                    assert(!ki.key_lt(kv[before[p] as int]));
                    assert(before[p] < i);
                } else if p < pos {
                    assert(out@[p] == before[p] && out@[q] == before[q - 1]);
                    assert(ranks_before(kv, before[p] as int, before[q - 1] as int));
                } else if p == pos {
                    assert(out@[q] == before[q - 1]);
                    assert(ki.key_lt(kv[before[q - 1] as int]));
                } else {
                    assert(out@[p] == before[p - 1] && out@[q] == before[q - 1]);
                }
            }
        }
        i += 1;
    }
    out
}

// ---- release dates --------------------------------------------------------------------

pub open spec fn date_view(d: Option<Vec<char>>) -> Option<Seq<char>> {
    match d {
        Some(v) => Some(v@),
        None => None,
    }
}

/// Release dates as `Option<String>` orders them: unknown first, then by
/// text.
pub open spec fn date_lt(a: Option<Seq<char>>, b: Option<Seq<char>>) -> bool {
    match (a, b) {
        (None, Some(_)) => true,
        (Some(x), Some(y)) => text_lt(x, y),
        _ => false,
    }
}

proof fn lemma_date_order(a: Option<Seq<char>>, b: Option<Seq<char>>, c: Option<Seq<char>>)
    ensures
        !date_lt(a, a),
        date_lt(a, b) && date_lt(b, c) ==> date_lt(a, c),
        !date_lt(a, b) && !date_lt(b, a) ==> a == b,
{
    match (a, b, c) {
        (Some(x), Some(y), Some(z)) => {
            lemma_text_order(x, y, z);
        },
        (Some(x), Some(y), None) => {
            lemma_text_order(x, y, y);
        },
        (Some(x), None, _) => {
            lemma_text_order(x, x, x);
        },
        (None, Some(y), _) => {
            lemma_text_order(y, y, y);
        },
        _ => {},
    }
}

fn date_less(a: &Option<Vec<char>>, b: &Option<Vec<char>>) -> (r: bool)
    ensures
        r == date_lt(date_view(*a), date_view(*b)),
{
    match (a, b) {
        (None, Some(_)) => true,
        (Some(x), Some(y)) => text_less(x, y),
        _ => false,
    }
}

fn date_same(a: &Option<Vec<char>>, b: &Option<Vec<char>>) -> (r: bool)
    ensures
        r == (date_view(*a) == date_view(*b)),
{
    proof {
        lemma_date_order(date_view(*a), date_view(*b), date_view(*b));
    }
    !date_less(a, b) && !date_less(b, a)
}

/// Oldest first; one date by name.
pub struct OldestFirst {
    pub date: Option<Vec<char>>,
    pub name: Vec<char>,
}

impl SortKey for OldestFirst {
    open spec fn key_lt(self, other: Self) -> bool {
        date_lt(date_view(self.date), date_view(other.date)) || (date_view(self.date) == date_view(other.date)
            && text_lt(self.name@, other.name@))
    }

    proof fn lemma_key_order(a: Self, b: Self, c: Self) {
        let (da, db, dc) = (date_view(a.date), date_view(b.date), date_view(c.date));
        lemma_date_order(da, db, dc);
        lemma_date_order(da, dc, db);
        lemma_date_order(db, da, dc);
        lemma_date_order(dc, da, db);
        lemma_text_order(a.name@, b.name@, c.name@);
        lemma_text_order(a.name@, c.name@, b.name@);
        lemma_text_order(c.name@, a.name@, b.name@);
    }

    fn less(&self, other: &Self) -> (r: bool) {
        if date_less(&self.date, &other.date) {
            return true;
        }
        date_same(&self.date, &other.date) && text_less(&self.name, &other.name)
    }
}

/// Newest first; one date in original order.
pub struct NewestFirst {
    pub date: Option<Vec<char>>,
}

impl SortKey for NewestFirst {
    open spec fn key_lt(self, other: Self) -> bool {
        date_lt(date_view(other.date), date_view(self.date))
    }

    proof fn lemma_key_order(a: Self, b: Self, c: Self) {
        let (da, db, dc) = (date_view(a.date), date_view(b.date), date_view(c.date));
        lemma_date_order(da, db, dc);
        lemma_date_order(dc, db, da);
        lemma_date_order(db, da, dc);
        lemma_date_order(dc, da, db);
        lemma_date_order(db, dc, da);
    }

    fn less(&self, other: &Self) -> (r: bool) {
        date_less(&other.date, &self.date)
    }
}

} // verus!
