//! Custom Playlist Editor planning.
//!
//! The UI computes the desired final order; this module turns it into the
//! fewest Spotify reorder calls (one per contiguous block that has to move)
//! so `added_at` and Spotify's per-item ids survive.
use vstd::prelude::*;

use vstd::string::StringExecFns;

use crate::error::AppError;

verus! {

/// One Spotify reorder call.
#[derive(Debug, Clone, Copy, PartialEq, Eq, Structural)]
pub struct Move {
    pub range_start: usize,
    pub insert_before: usize,
    pub range_length: usize,
}

/// Spotify rejects large reorder ranges; every planned range is at most this.
pub const MAX_RANGE: usize = 100;

/// A reorder call Spotify accepts on a list of `n` items: a non-empty range of
/// at most `MAX_RANGE` items inside the list, and an insertion point that is
/// not inside the range.
pub open spec fn move_fits(m: Move, n: nat) -> bool {
    &&& 1 <= m.range_length <= MAX_RANGE
    &&& m.range_start + m.range_length <= n
    &&& m.insert_before <= n
    &&& (m.insert_before > m.range_start ==> m.insert_before >= m.range_start + m.range_length)
}

/// Where the block lands once removed: `insert_before` counts positions
/// before the removal.
pub open spec fn landing(m: Move) -> int {
    if m.insert_before > m.range_start {
        m.insert_before - m.range_length
    } else {
        m.insert_before as int
    }
}

/// Spotify's reorder: cut the range out, then put it back at `landing`.
pub open spec fn apply_move_spec(cur: Seq<usize>, m: Move) -> Seq<usize> {
    let s = m.range_start as int;
    let e = s + m.range_length;
    let block = cur.subrange(s, e);
    let rest = cur.subrange(0, s) + cur.subrange(e, cur.len() as int);
    let at = landing(m);
    rest.subrange(0, at) + block + rest.subrange(at, rest.len() as int)
}

/// The list after applying `moves` in order to `start`.
pub open spec fn run_moves(start: Seq<usize>, moves: Seq<Move>) -> Seq<usize>
    decreases moves.len(),
{
    if moves.len() == 0 {
        start
    } else {
        apply_move_spec(run_moves(start, moves.drop_last()), moves.last())
    }
}

/// `0, 1, ..., n - 1`: the playlist's current order.
pub open spec fn identity_order(n: nat) -> Seq<usize> {
    Seq::new(n, |i: int| i as usize)
}

/// Every position below the length appears exactly once.
pub open spec fn is_permutation(t: Seq<usize>) -> bool {
    &&& forall|k: int| 0 <= k < t.len() ==> #[trigger] t[k] < t.len()
    &&& forall|a: int, b: int| 0 <= a < b < t.len() ==> t[a] != t[b]
}

/// Source index (in the list before the move) of the item at `k` after it.
pub open spec fn move_source(m: Move, k: int) -> int {
    let s = m.range_start as int;
    let l = m.range_length as int;
    let at = landing(m);
    let r = if k < at {
        k
    } else if k < at + l {
        -1
    } else {
        k - l
    };
    if at <= k < at + l {
        s + (k - at)
    } else if r < s {
        r
    } else {
        r + l
    }
}

/// Position (after the move) of the item at index `q` before it.
pub open spec fn move_target(m: Move, q: int) -> int {
    let s = m.range_start as int;
    let l = m.range_length as int;
    let at = landing(m);
    if s <= q < s + l {
        at + (q - s)
    } else {
        let r = if q < s {
            q
        } else {
            q - l
        };
        if r < at {
            r
        } else {
            r + l
        }
    }
}

pub proof fn lemma_apply_move_shape(cur: Seq<usize>, m: Move)
    requires
        move_fits(m, cur.len()),
    ensures
        apply_move_spec(cur, m).len() == cur.len(),
        forall|k: int|
            0 <= k < cur.len() ==> #[trigger] apply_move_spec(cur, m)[k] == cur[move_source(m, k)]
                && 0 <= move_source(m, k) < cur.len(),
        forall|q: int|
            0 <= q < cur.len() ==> 0 <= #[trigger] move_target(m, q) < cur.len() && apply_move_spec(
                cur,
                m,
            )[move_target(m, q)] == cur[q],
{
    let s = m.range_start as int;
    let l = m.range_length as int;
    let e = s + l;
    let rest = cur.subrange(0, s) + cur.subrange(e, cur.len() as int);
    let at = landing(m);
    assert(0 <= at <= rest.len());
    let out = apply_move_spec(cur, m);
    assert forall|k: int| 0 <= k < cur.len() implies #[trigger] out[k] == cur[move_source(m, k)]
        && 0 <= move_source(m, k) < cur.len() by {
        if k < at {
            assert(out[k] == rest[k]);
        } else if k < at + l {
            assert(out[k] == cur.subrange(s, e)[k - at]);
        } else {
            assert(out[k] == rest[k - l]);
        }
    }
    assert forall|q: int| 0 <= q < cur.len() implies 0 <= #[trigger] move_target(m, q) < cur.len()
        && out[move_target(m, q)] == cur[q] by {
        let t = move_target(m, q);
        if s <= q < e {
            assert(out[t] == cur.subrange(s, e)[q - s]);
        } else {
            let r = if q < s {
                q
            } else {
                q - l
            };
            assert(rest[r] == cur[q]);
            if r < at {
                assert(out[t] == rest[r]);
            } else {
                assert(out[t] == rest[r]);
            }
        }
    }
}

/// Apply a reorder with Spotify's semantics: `insert_before` refers to
/// positions *before* the range is removed.
pub fn apply_move(cur: &mut Vec<usize>, m: &Move)
    requires
        move_fits(*m, old(cur)@.len()),
    ensures
        final(cur)@ == apply_move_spec(old(cur)@, *m),
{
    let ghost before = cur@;
    proof {
        lemma_apply_move_shape(before, *m);
    }
    let n = cur.len();
    let s = m.range_start;
    let l = m.range_length;
    let at = if m.insert_before > s {
        m.insert_before - l
    } else {
        m.insert_before
    };
    let mut out: Vec<usize> = Vec::new();
    let mut k: usize = 0;
    while k < n
        invariant
            n == cur@.len(),
            cur@ == before,
            move_fits(*m, n as nat),
            s == m.range_start,
            l == m.range_length,
            at == landing(*m),
            k <= n,
            out@.len() == k,
            forall|t: int| 0 <= t < k ==> #[trigger] out@[t] == before[move_source(*m, t)],
        decreases n - k,
    {
        let src = if at <= k && k < at + l {
            s + (k - at)
        } else {
            let r = if k < at {
                k
            } else {
                k - l
            };
            if r < s {
                r
            } else {
                r + l
            }
        };
        assert(src == move_source(*m, k as int));
        assert(0 <= move_source(*m, k as int) < n) by {
            assert(apply_move_spec(before, *m)[k as int] == before[move_source(*m, k as int)]);
        }
        out.push(cur[src]);
        k += 1;
    }
    assert(out@ =~= apply_move_spec(before, *m));
    *cur = out;
}

pub open spec fn all_fit(moves: Seq<Move>, n: nat) -> bool {
    forall|k: int| 0 <= k < moves.len() ==> move_fits(#[trigger] moves[k], n)
}

proof fn lemma_run_push(start: Seq<usize>, moves: Seq<Move>, m: Move)
    ensures
        run_moves(start, moves.push(m)) == apply_move_spec(run_moves(start, moves), m),
{
    assert(moves.push(m).drop_last() =~= moves);
}

/// First index at or after `j` that holds `want` (the length when none does).
pub open spec fn find_from(cur: Seq<usize>, want: usize, j: int) -> int
    decreases cur.len() - j,
{
    if j < 0 || j >= cur.len() || cur[j] == want {
        j
    } else {
        find_from(cur, want, j + 1)
    }
}

/// Length of the block at `j` that already matches the target from `i` on,
/// counting from `len`.
pub open spec fn run_len(cur: Seq<usize>, target: Seq<usize>, i: int, j: int, len: int) -> int
    decreases cur.len() - (j + len),
{
    if j + len < cur.len() && i + len < target.len() && cur[j + len] == target[i + len] {
        run_len(cur, target, i, j, len + 1)
    } else {
        len
    }
}

/// The next reorder range: what is left of `total`, capped at `MAX_RANGE`.
pub open spec fn chunk_of(total: int, moved: int) -> int {
    if total - moved < MAX_RANGE {
        total - moved
    } else {
        MAX_RANGE as int
    }
}

/// The gap `i..j` moved after the block of `len` items at `j`, chunk by chunk.
pub open spec fn gap_moves(i: int, j: int, len: int, moved: int) -> Seq<Move>
    decreases (j - i) - moved,
{
    if moved >= j - i || chunk_of(j - i, moved) < 1 {
        Seq::empty()
    } else {
        let chunk = chunk_of(j - i, moved);
        seq![Move { range_start: i as usize, insert_before: (j + len - moved) as usize, range_length: chunk as usize }]
            + gap_moves(i, j, len, moved + chunk)
    }
}

/// The block of `len` items at `j` moved before `i`, chunk by chunk.
pub open spec fn block_moves(i: int, j: int, len: int, moved: int) -> Seq<Move>
    decreases len - moved,
{
    if moved >= len || chunk_of(len, moved) < 1 {
        Seq::empty()
    } else {
        let chunk = chunk_of(len, moved);
        seq![Move { range_start: (j + moved) as usize, insert_before: (i + moved) as usize, range_length: chunk as usize }]
            + block_moves(i, j, len, moved + chunk)
    }
}

/// The calls that put the item belonging at `i` in place, with the block
/// that comes along with it: the smaller of the gap and the block moves.
pub open spec fn step_moves(cur: Seq<usize>, target: Seq<usize>, i: int) -> Seq<Move> {
    let j = find_from(cur, target[i], i);
    let len = run_len(cur, target, i, j, 1);
    if j - i <= len {
        gap_moves(i, j, len, 0)
    } else {
        block_moves(i, j, len, 0)
    }
}

/// The plan from position `i` on: positions already in place are skipped;
/// otherwise one step fixes the block starting at `i` and the walk goes on
/// after it.
pub open spec fn plan_from(cur: Seq<usize>, target: Seq<usize>, i: int) -> Seq<Move>
    decreases target.len() - i,
{
    if i < 0 || i >= target.len() {
        Seq::empty()
    } else if cur[i] == target[i] {
        plan_from(cur, target, i + 1)
    } else {
        let len = run_len(cur, target, i, find_from(cur, target[i], i), 1);
        let ms = step_moves(cur, target, i);
        if len < 1 || i + len > target.len() {
            ms
        } else {
            ms + plan_from(run_moves(cur, ms), target, i + len)
        }
    }
}

proof fn lemma_run_append(start: Seq<usize>, a: Seq<Move>, b: Seq<Move>)
    ensures
        run_moves(start, a + b) == run_moves(run_moves(start, a), b),
    decreases b.len(),
{
    if b.len() == 0 {
        assert(a + b =~= a);
    } else {
        lemma_run_append(start, a, b.drop_last());
        assert((a + b).drop_last() =~= a + b.drop_last());
        assert((a + b).last() == b.last());
    }
}

/// Plan the moves that transform identity order `0..n` into `target` (a
/// permutation of original positions). Walks left to right; whenever the
/// item that belongs at `i` sits at `j > i`, either the block starting at `j`
/// moves before `i`, or the items in between (the gap) move after the block,
/// whichever is smaller. Ranges are chunked to `MAX_RANGE`.
pub fn plan_moves(target: &[usize]) -> (moves: Vec<Move>)
    requires
        is_permutation(target@),
    ensures
        all_fit(moves@, target@.len()),
        run_moves(identity_order(target@.len()), moves@) == target@,
        moves@ == plan_from(identity_order(target@.len()), target@, 0),
{
    let n = target.len();
    let mut cur: Vec<usize> = Vec::new();
    let mut p: usize = 0;
    while p < n
        invariant
            n == target@.len(),
            p <= n,
            cur@ == identity_order(p as nat),
        decreases n - p,
    {
        cur.push(p);
        p += 1;
        assert(cur@ =~= identity_order(p as nat));
    }
    let ghost start = cur@;
    let mut moves: Vec<Move> = Vec::new();
    proof {
        assert forall|v: usize| v < n implies #[trigger] cur@.contains(v) by {
            assert(cur@[v as int] == v);
        }
        assert(moves@ + plan_from(cur@, target@, 0) =~= plan_from(start, target@, 0));
    }
    let mut i: usize = 0;
    while i < n
        invariant
            n == target@.len(),
            is_permutation(target@),
            start == identity_order(n as nat),
            cur@.len() == n,
            i <= n,
            forall|t: int| 0 <= t < i ==> #[trigger] cur@[t] == target@[t],
            forall|v: usize| v < n ==> #[trigger] cur@.contains(v),
            cur@ == run_moves(start, moves@),
            all_fit(moves@, n as nat),
            moves@ + plan_from(cur@, target@, i as int) == plan_from(start, target@, 0),
        decreases n - i,
    {
        if cur[i] == target[i] {
            i += 1;
            continue;
        }
        // Locate the item that belongs at `i`.
        let want = target[i];
        assert(want < n);
        assert(cur@.contains(want));
        let ghost q = choose|q: int| 0 <= q < n && cur@[q] == want;
        assert(q >= i) by {
            if q < i {
                assert(cur@[q] == target@[q]);
                assert(target@[q] != target@[i as int]);
            }
        }
        let mut j: usize = i;
        while cur[j] != want
            invariant
                cur@.len() == n,
                i <= j <= q < n,
                cur@[q] == want,
                forall|t: int| i <= t < j ==> cur@[t] != want,
                find_from(cur@, want, i as int) == find_from(cur@, want, j as int),
            decreases q - j,
        {
            j += 1;
        }
        // Extend the block while the following items also line up.
        let mut len: usize = 1;
        while j + len < n && i + len < n && cur[j + len] == target[i + len]
            invariant
                cur@.len() == n,
                n == target@.len(),
                i < j,
                j + len <= n,
                1 <= len,
                forall|t: int| 0 <= t < len ==> #[trigger] cur@[j + t] == target@[i + t],
                j == find_from(cur@, target@[i as int], i as int),
                run_len(cur@, target@, i as int, j as int, 1) == run_len(
                    cur@,
                    target@,
                    i as int,
                    j as int,
                    len as int,
                ),
            decreases n - len,
        {
            len += 1;
        }
        let gap = j - i;
        assert forall|k: int| j <= k < j + len implies #[trigger] cur@[k] == target@[k - gap] by {
            let t = k - j;
            assert(cur@[j + t] == target@[i + t]);
        }
        let ghost cur0 = cur@;
        let ghost moves0 = moves@;
        if gap <= len {
            // Move the gap after the block, in chunks.
            let mut moved: usize = 0;
            while moved < gap
                invariant
                    n == target@.len(),
                    is_permutation(target@),
                    start == identity_order(n as nat),
                    cur@.len() == n,
                    i < j,
                    gap == j - i,
                    j + len <= n,
                    moved <= gap,
                    forall|t: int| 0 <= t < i ==> #[trigger] cur@[t] == target@[t],
                    cur0.len() == n,
                    forall|k: int| i <= k < i + gap - moved ==> #[trigger] cur@[k] == cur0[k + moved],
                    forall|k: int|
                        i + gap - moved <= k < i + gap - moved + len ==> #[trigger] cur@[k]
                            == target@[k - (gap - moved)],
                    forall|v: usize| v < n ==> #[trigger] cur@.contains(v),
                    cur@ == run_moves(start, moves@),
                    all_fit(moves@, n as nat),
                    moves0 + gap_moves(i as int, j as int, len as int, 0) == moves@ + gap_moves(
                        i as int,
                        j as int,
                        len as int,
                        moved as int,
                    ),
                decreases gap - moved,
            {
                let chunk = if gap - moved < MAX_RANGE {
                    gap - moved
                } else {
                    MAX_RANGE
                };
                let m = Move { range_start: i, insert_before: j + len - moved, range_length: chunk };
                let ghost c1 = cur@;
                proof {
                    lemma_apply_move_shape(c1, m);
                }
                apply_move(&mut cur, &m);
                proof {
                    lemma_run_push(start, moves@, m);
                    assert forall|t: int| 0 <= t < i implies #[trigger] cur@[t] == target@[t] by {
                        assert(cur@[t] == c1[move_source(m, t)]);
                    }
                    assert forall|k: int| i <= k < i + gap - (moved + chunk) implies #[trigger] cur@[k]
                        == cur0[k + (moved + chunk)] by {
                        let src = move_source(m, k);
                        assert(cur@[k] == c1[src]);
                        assert(src == k + chunk);
                        assert(c1[src] == cur0[src + moved]);
                    }
                    assert forall|k: int|
                        i + gap - (moved + chunk) <= k < i + gap - (moved + chunk) + len implies #[trigger] cur@[k]
                        == target@[k - (gap - (moved + chunk))] by {
                        let src = move_source(m, k);
                        assert(cur@[k] == c1[src]);
                        assert(src == k + chunk);
                        assert(c1[src] == target@[src - (gap - moved)]);
                    }
                    assert forall|v: usize| v < n implies #[trigger] cur@.contains(v) by {
                        assert(c1.contains(v));
                        let qq = choose|qq: int| 0 <= qq < c1.len() && c1[qq] == v;
                        assert(cur@[move_target(m, qq)] == v);
                    }
                }
                let ghost before_moves = moves@;
                moves.push(m);
                proof {
                    let rest = gap_moves(i as int, j as int, len as int, (moved + chunk) as int);
                    assert(gap_moves(i as int, j as int, len as int, moved as int) == seq![m] + rest);
                    assert(moves@ + rest =~= before_moves + (seq![m] + rest));
                    assert forall|k: int| 0 <= k < moves@.len() implies move_fits(
                        #[trigger] moves@[k],
                        n as nat,
                    ) by {
                        if k < moves@.len() - 1 {
                            assert(moves@[k] == moves@.drop_last()[k]);
                        }
                    }
                }
                moved += chunk;
            }
            assert forall|t: int| 0 <= t < i + len implies #[trigger] cur@[t] == target@[t] by {
                if t >= i {
                    assert(cur@[t] == target@[t - (gap - moved)]);
                }
            }
            assert(moves@ =~= moves0 + gap_moves(i as int, j as int, len as int, 0));
        } else {
            // Move the block before i, in chunks.
            let mut moved: usize = 0;
            while moved < len
                invariant
                    n == target@.len(),
                    is_permutation(target@),
                    start == identity_order(n as nat),
                    cur@.len() == n,
                    i < j,
                    gap == j - i,
                    j + len <= n,
                    moved <= len,
                    forall|t: int| 0 <= t < i + moved ==> #[trigger] cur@[t] == target@[t],
                    forall|k: int| j + moved <= k < j + len ==> #[trigger] cur@[k] == target@[k - gap],
                    forall|v: usize| v < n ==> #[trigger] cur@.contains(v),
                    cur@ == run_moves(start, moves@),
                    all_fit(moves@, n as nat),
                    moves0 + block_moves(i as int, j as int, len as int, 0) == moves@ + block_moves(
                        i as int,
                        j as int,
                        len as int,
                        moved as int,
                    ),
                decreases len - moved,
            {
                let chunk = if len - moved < MAX_RANGE {
                    len - moved
                } else {
                    MAX_RANGE
                };
                let m = Move { range_start: j + moved, insert_before: i + moved, range_length: chunk };
                let ghost c1 = cur@;
                proof {
                    lemma_apply_move_shape(c1, m);
                }
                apply_move(&mut cur, &m);
                proof {
                    lemma_run_push(start, moves@, m);
                    assert forall|t: int| 0 <= t < i + (moved + chunk) implies #[trigger] cur@[t]
                        == target@[t] by {
                        let src = move_source(m, t);
                        assert(cur@[t] == c1[src]);
                        if t >= i + moved {
                            assert(src == j + moved + (t - (i + moved)));
                            assert(c1[src] == target@[src - gap]);
                        } else {
                            assert(src == t);
                            assert(c1[src] == target@[src]);
                        }
                    }
                    assert forall|k: int| j + (moved + chunk) <= k < j + len implies #[trigger] cur@[k]
                        == target@[k - gap] by {
                        let src = move_source(m, k);
                        assert(cur@[k] == c1[src]);
                        assert(src == k);
                        assert(c1[src] == target@[src - gap]);
                    }
                    assert forall|v: usize| v < n implies #[trigger] cur@.contains(v) by {
                        assert(c1.contains(v));
                        let qq = choose|qq: int| 0 <= qq < c1.len() && c1[qq] == v;
                        assert(cur@[move_target(m, qq)] == v);
                    }
                }
                let ghost before_moves = moves@;
                moves.push(m);
                proof {
                    let rest = block_moves(i as int, j as int, len as int, (moved + chunk) as int);
                    assert(block_moves(i as int, j as int, len as int, moved as int) == seq![m] + rest);
                    assert(moves@ + rest =~= before_moves + (seq![m] + rest));
                    assert forall|k: int| 0 <= k < moves@.len() implies move_fits(
                        #[trigger] moves@[k],
                        n as nat,
                    ) by {
                        if k < moves@.len() - 1 {
                            assert(moves@[k] == moves@.drop_last()[k]);
                        }
                    }
                }
                moved += chunk;
            }
            assert(moves@ =~= moves0 + block_moves(i as int, j as int, len as int, 0));
        }
        proof {
            let ms = step_moves(cur0, target@, i as int);
            assert(moves@ == moves0 + ms);
            lemma_run_append(start, moves0, ms);
            assert(plan_from(cur0, target@, i as int) == ms + plan_from(
                run_moves(cur0, ms),
                target@,
                (i + len) as int,
            ));
            assert(moves@ + plan_from(cur@, target@, (i + len) as int) =~= moves0 + plan_from(
                cur0,
                target@,
                i as int,
            ));
        }
        i += len;
    }
    assert(cur@ =~= target@);
    assert(moves@ + plan_from(cur@, target@, i as int) =~= moves@);
    moves
}

/// The order in which the block `p + b .. p + b + c` was moved before the
/// block `p .. p + b`, everything else staying.
pub open spec fn one_block_target(n: int, p: int, b: int, c: int) -> Seq<usize> {
    Seq::new(
        n as nat,
        |k: int|
            (if k < p {
                k
            } else if k < p + c {
                k + b
            } else if k < p + b + c {
                k - c
            } else {
                k
            }) as usize,
    )
}

proof fn lemma_plan_skips(cur: Seq<usize>, target: Seq<usize>, i: int, p: int)
    requires
        0 <= i <= p <= target.len(),
        forall|k: int| i <= k < p ==> cur[k] == target[k],
    ensures
        plan_from(cur, target, i) == plan_from(cur, target, p),
    decreases p - i,
{
    if i < p {
        lemma_plan_skips(cur, target, i + 1, p);
    }
}

proof fn lemma_plan_done(s: Seq<usize>, i: int)
    requires
        0 <= i,
    ensures
        plan_from(s, s, i) == Seq::<Move>::empty(),
    decreases s.len() - i,
{
    if i < s.len() {
        lemma_plan_done(s, i + 1);
    }
}

proof fn lemma_find_from_at(cur: Seq<usize>, want: usize, j: int, q: int)
    requires
        0 <= j <= q < cur.len(),
        cur[q] == want,
        forall|k: int| j <= k < q ==> cur[k] != want,
    ensures
        find_from(cur, want, j) == q,
    decreases q - j,
{
    if j < q {
        lemma_find_from_at(cur, want, j + 1, q);
    }
}

pub open spec fn lines_up(cur: Seq<usize>, target: Seq<usize>, i: int, j: int, l: int) -> bool {
    j + l < cur.len() && i + l < target.len() && cur[j + l] == target[i + l]
}

proof fn lemma_run_len_to(cur: Seq<usize>, target: Seq<usize>, i: int, j: int, len: int, c: int)
    requires
        1 <= len <= c,
        forall|l: int| len <= l < c ==> #[trigger] lines_up(cur, target, i, j, l),
        !lines_up(cur, target, i, j, c),
    ensures
        run_len(cur, target, i, j, len) == c,
    decreases c - len,
{
    if len < c {
        assert(lines_up(cur, target, i, j, len));
        lemma_run_len_to(cur, target, i, j, len + 1, c);
    } else {
        assert(!lines_up(cur, target, i, j, len));
    }
}

/// The reorder call of the one-block plan gives the target order.
proof fn lemma_one_block_move(n: int, p: int, b: int, c: int, m: Move)
    requires
        0 <= p,
        1 <= b,
        1 <= c,
        p + b + c <= n <= usize::MAX,
        (b <= c && b <= MAX_RANGE && m == Move { range_start: p as usize, insert_before: (p + b + c) as usize, range_length: b as usize })
            || (c < b && c <= MAX_RANGE && m == Move { range_start: (p + b) as usize, insert_before: p as usize, range_length: c as usize }),
    ensures
        apply_move_spec(identity_order(n as nat), m) == one_block_target(n, p, b, c),
{
    let id = identity_order(n as nat);
    let t = one_block_target(n, p, b, c);
    lemma_apply_move_shape(id, m);
    let out = apply_move_spec(id, m);
    assert forall|k: int| 0 <= k < n implies out[k] == t[k] by {
        assert(out[k] == id[move_source(m, k)]);
    }
    assert(out =~= t);
}

/// Moving one block past its neighbour takes one reorder call, which moves
/// the smaller side: the items in between go after the block when they are
/// no more than it, else the block goes before them.
#[verifier::rlimit(50)]
pub proof fn one_block_is_one_call(n: int, p: int, b: int, c: int)
    requires
        0 <= p,
        1 <= b,
        1 <= c,
        p + b + c <= n <= usize::MAX,
        b <= c ==> b <= MAX_RANGE,
        c < b ==> c <= MAX_RANGE,
    ensures
        plan_from(identity_order(n as nat), one_block_target(n, p, b, c), 0) == if b <= c {
            seq![Move { range_start: p as usize, insert_before: (p + b + c) as usize, range_length: b as usize }]
        } else {
            seq![Move { range_start: (p + b) as usize, insert_before: p as usize, range_length: c as usize }]
        },
{
    let id = identity_order(n as nat);
    let t = one_block_target(n, p, b, c);
    lemma_plan_skips(id, t, 0, p);
    let want = t[p];
    assert(want == (p + b) as usize);
    lemma_find_from_at(id, want, p, p + b);
    assert forall|l: int| 1 <= l < c implies #[trigger] lines_up(id, t, p, p + b, l) by {}
    lemma_run_len_to(id, t, p, p + b, 1, c);
    let m = if b <= c {
        Move { range_start: p as usize, insert_before: (p + b + c) as usize, range_length: b as usize }
    } else {
        Move { range_start: (p + b) as usize, insert_before: p as usize, range_length: c as usize }
    };
    if b <= c {
        assert(gap_moves(p, p + b, c, b) == Seq::<Move>::empty());
        assert(gap_moves(p, p + b, c, 0) == seq![m] + Seq::<Move>::empty());
    } else {
        assert(block_moves(p, p + b, c, c) == Seq::<Move>::empty());
        assert(block_moves(p, p + b, c, 0) == seq![m] + Seq::<Move>::empty());
    }
    let ms = seq![m];
    assert(step_moves(id, t, p) =~= ms);
    assert(ms.drop_last() =~= Seq::<Move>::empty());
    assert(ms.last() == m);
    assert(run_moves(id, ms.drop_last()) == id);
    assert(run_moves(id, ms) == apply_move_spec(id, m));
    lemma_one_block_move(n, p, b, c, m);
    lemma_plan_done(t, p + c);
    assert(plan_from(id, t, p) =~= ms);
}

/// `Ok` exactly when `target` has `n` entries and is a permutation of `0..n`.
pub fn validate_permutation(target: &[usize], n: usize) -> (r: Result<(), AppError>)
    ensures
        r is Ok <==> (target@.len() == n && is_permutation(target@)),
        target@.len() != n ==> (r matches Err(AppError::Other(m))
            && m@ == "The playlist changed since it was loaded. Reload and try again."@),
        target@.len() == n && !is_permutation(target@) ==> (r matches Err(AppError::Other(m))
            && m@ == "Invalid order: not a permutation of the playlist."@),
{
    if target.len() != n {
        return Err(AppError::Other(String::from_str(
            "The playlist changed since it was loaded. Reload and try again.",
        )));
    }
    let mut seen: Vec<bool> = Vec::new();
    let mut k: usize = 0;
    while k < n
        invariant
            k <= n,
            seen@.len() == k,
            forall|t: int| 0 <= t < k ==> !#[trigger] seen@[t],
        decreases n - k,
    {
        seen.push(false);
        k += 1;
    }
    let mut idx: usize = 0;
    while idx < n
        invariant
            n == target@.len(),
            idx <= n,
            seen@.len() == n,
            forall|a: int| 0 <= a < idx ==> #[trigger] target@[a] < n,
            forall|a: int, b: int| 0 <= a < b < idx ==> target@[a] != target@[b],
            forall|v: int| 0 <= v < n ==> (#[trigger] seen@[v] <==> exists|a: int| 0 <= a < idx && target@[a] == v),
        decreases n - idx,
    {
        let p = target[idx];
        if p >= n || seen[p] {
            proof {
                if p < n {
                    let a = choose|a: int| 0 <= a < idx && target@[a] == p;
                    assert(target@[a] == target@[idx as int]);
                }
            }
            return Err(AppError::Other(String::from_str(
                "Invalid order: not a permutation of the playlist.",
            )));
        }
        let ghost old_seen = seen@;
        seen.set(p, true);
        proof {
            assert forall|v: int| 0 <= v < n implies (#[trigger] seen@[v] <==> exists|a: int|
                0 <= a < idx + 1 && target@[a] == v) by {
                if v == p {
                    assert(target@[idx as int] == v);
                } else {
                    assert(seen@[v] == old_seen[v]);
                    if exists|a: int| 0 <= a < idx + 1 && target@[a] == v {
                        let a = choose|a: int| 0 <= a < idx + 1 && target@[a] == v;
                        assert(a < idx);
                    }
                }
            }
            assert forall|a: int, b: int| 0 <= a < b < idx + 1 implies target@[a] != target@[b] by {
                if b == idx {
                    assert(old_seen[target@[a] as int]);
                }
            }
        }
        idx += 1;
    }
    Ok(())
}

#[derive(Debug, Clone)]
pub struct EditorProgress {
    pub playlist_id: String,
    pub done: usize,
    pub total: usize,
}

#[derive(Debug, Clone)]
pub struct ApplyResult {
    pub moves: usize,
}

} // verus!
