//! Fuzzy matching helpers: the same song often exists under several URIs
//! (re-releases, deluxe editions, remasters), so tools also compare by a
//! normalized title + primary artist.
use vstd::prelude::*;

use crate::text::{
    all_ascii, ascii_lower_char, has_sub, is_ascii_alphanumeric_spec, is_first_occurrence,
    lemma_first_occurrence_unique, occurs_at, squash_from,
    before_char, chars_of, char_is_alphanumeric, char_is_whitespace, concat_chars, cut_at,
    cut_at_chars, is_alphanumeric_char, is_whitespace_char, lowercase_of, squash_whitespace,
    squash_whitespace_chars, string_from_chars, to_lowercase, trim, trim_chars,
};

verus! {

// ---- bracket stripping -----------------------------------------------------------

/// Characters of `s` outside `open`/`close` pairs, scanning with a nesting
/// depth that never drops below zero (an unmatched `close` is just dropped).
pub open spec fn strip_from(s: Seq<char>, open: char, close: char, depth: nat) -> Seq<char>
    decreases s.len(),
{
    if s.len() == 0 {
        Seq::empty()
    } else {
        let c = s[0];
        let rest = s.drop_first();
        if c == open {
            strip_from(rest, open, close, depth + 1)
        } else if c == close {
            strip_from(rest, open, close, if depth == 0 { 0 } else { (depth - 1) as nat })
        } else if depth == 0 {
            seq![c] + strip_from(rest, open, close, 0)
        } else {
            strip_from(rest, open, close, depth)
        }
    }
}

pub open spec fn strip_brackets_spec(s: Seq<char>, open: char, close: char) -> Seq<char> {
    strip_from(s, open, close, 0)
}

/// Drop bracketed qualifiers such as "(feat. X)" or "[Live]".
pub fn strip_brackets(s: &Vec<char>, open: char, close: char) -> (r: Vec<char>)
    ensures
        r@ == strip_brackets_spec(s@, open, close),
{
    let n = s.len();
    let mut out: Vec<char> = Vec::new();
    let mut depth: usize = 0;
    let mut i: usize = 0;
    assert(s@.subrange(0, n as int) =~= s@);
    while i < n
        invariant
            n == s.len(),
            i <= n,
            depth <= i,
            out@ + strip_from(s@.subrange(i as int, n as int), open, close, depth as nat)
                == strip_brackets_spec(s@, open, close),
        decreases n - i,
    {
        let c = s[i];
        let ghost rest = s@.subrange(i as int, n as int);
        assert(rest.drop_first() =~= s@.subrange(i + 1, n as int));
        if c == open {
            depth += 1;
        } else if c == close {
            if depth > 0 {
                depth -= 1;
            }
        } else if depth == 0 {
            let ghost before = out@;
            out.push(c);
            assert(out@ + strip_from(s@.subrange(i + 1, n as int), open, close, 0) =~= before
                + strip_from(rest, open, close, 0));
        }
        i += 1;
    }
    assert(out@ + Seq::<char>::empty() =~= out@);
    out
}

// ---- title normalisation ------------------------------------------------------------

/// Keep letters, digits and whitespace; everything else becomes a space.
pub open spec fn clean_char(c: char) -> char {
    if is_alphanumeric_char(c) || is_whitespace_char(c) {
        c
    } else {
        ' '
    }
}

/// The title pipeline: lower-case, drop anything after " - ", drop bracketed
/// qualifiers, drop a bare "feat."-style credit, turn punctuation into spaces
/// and collapse whitespace.
pub open spec fn normalize_title_spec(title: Seq<char>) -> Seq<char> {
    normalize_lowered_spec(lowercase_of(title))
}

/// The title pipeline after lower-casing.
pub open spec fn normalize_lowered_spec(lower: Seq<char>) -> Seq<char> {
    let s0 = cut_at(lower, " - "@);
    let s1 = strip_brackets_spec(strip_brackets_spec(s0, '(', ')'), '[', ']');
    let s2 = cut_at(
        cut_at(cut_at(cut_at(cut_at(s1, " feat. "@), " feat "@), " ft. "@), " ft "@),
        " featuring "@,
    );
    squash_whitespace(s2.map_values(|c: char| clean_char(c)))
}

/// An ASCII character other than a capital letter.
pub open spec fn ascii_plain(c: char) -> bool {
    (c as u32) < 128 && !('A' <= c && c <= 'Z')
}

/// ASCII text without capital letters (what lower-casing ASCII gives).
pub open spec fn ascii_without_capitals(s: Seq<char>) -> bool {
    forall|k: int| 0 <= k < s.len() ==> ascii_plain(#[trigger] s[k])
}

/// A character a normalized ASCII title keeps: a small letter or a digit.
pub open spec fn title_char(c: char) -> bool {
    ('a' <= c && c <= 'z') || ('0' <= c && c <= '9')
}

/// Small letters, digits and single spaces between words: no space at
/// either end and never two in a row.
pub open spec fn normalized_shape(o: Seq<char>) -> bool {
    &&& forall|k: int| 0 <= k < o.len() ==> #[trigger] o[k] == ' ' || title_char(o[k])
    &&& o.len() > 0 ==> o[0] != ' ' && o.last() != ' '
    &&& forall|k: int| 0 <= k < o.len() - 1 && #[trigger] o[k] == ' ' ==> o[k + 1] != ' '
}

proof fn lemma_prefix_keeps(s: Seq<char>, r: Seq<char>)
    requires
        ascii_without_capitals(s),
        r.len() <= s.len(),
        r == s.subrange(0, r.len() as int),
    ensures
        ascii_without_capitals(r),
{
    assert forall|k: int| 0 <= k < r.len() implies ascii_plain(#[trigger] r[k]) by {
        assert(r[k] == s[k]);
    }
}

proof fn lemma_strip_keeps(s: Seq<char>, open: char, close: char, depth: nat)
    requires
        ascii_without_capitals(s),
    ensures
        ascii_without_capitals(strip_from(s, open, close, depth)),
    decreases s.len(),
{
    if s.len() > 0 {
        let rest = s.drop_first();
        assert forall|k: int| 0 <= k < rest.len() implies ascii_plain(#[trigger] rest[k]) by {
            assert(rest[k] == s[k + 1]);
        }
        lemma_strip_keeps(rest, open, close, depth + 1);
        lemma_strip_keeps(rest, open, close, 0);
        lemma_strip_keeps(rest, open, close, depth);
        if depth > 0 {
            lemma_strip_keeps(rest, open, close, (depth - 1) as nat);
        }
        let c = s[0];
        if c != open && c != close && depth == 0 {
            let o = seq![c] + strip_from(rest, open, close, 0);
            assert forall|k: int| 0 <= k < o.len() implies ascii_plain(#[trigger] o[k]) by {
                if k > 0 {
                    assert(o[k] == strip_from(rest, open, close, 0)[k - 1]);
                }
            }
        }
    }
}

/// Squashing whitespace leaves single spaces between the words, none at the
/// end, none at the start unless a word came before, and only the
/// non-blank characters of the text besides.
proof fn lemma_squash_shape(s: Seq<char>, started: bool, pending: bool)
    requires
        forall|j: int| 0 <= j < s.len() && !is_whitespace_char(s[j]) ==> #[trigger] title_char(s[j]),
        pending ==> started,
    ensures
        ({
            let o = squash_from(s, started, pending);
            &&& forall|k: int| 0 <= k < o.len() ==> #[trigger] o[k] == ' ' || title_char(o[k])
            &&& o.len() > 0 && o[0] == ' ' ==> started
            &&& o.len() > 0 ==> o.last() != ' '
            &&& forall|k: int| 0 <= k < o.len() - 1 && #[trigger] o[k] == ' ' ==> o[k + 1] != ' '
        }),
    decreases s.len(),
{
    if s.len() > 0 {
        let rest = s.drop_first();
        assert forall|j: int| 0 <= j < rest.len() && !is_whitespace_char(rest[j]) implies #[trigger] title_char(
            rest[j],
        ) by {
            assert(rest[j] == s[j + 1]);
        }
        if is_whitespace_char(s[0]) {
            lemma_squash_shape(rest, started, started);
        } else {
            lemma_squash_shape(rest, true, false);
            let c = s[0];
            assert(title_char(c));
            let tail = squash_from(rest, true, false);
            let head: Seq<char> = if pending {
                seq![' ']
            } else {
                Seq::empty()
            };
            let o = head + seq![c] + tail;
            assert(o == squash_from(s, started, pending));
            let h = head.len() as int;
            assert(o[h] == c);
            assert forall|k: int| 0 <= k < o.len() implies #[trigger] o[k] == ' ' || title_char(o[k]) by {
                if k > h {
                    assert(o[k] == tail[k - h - 1]);
                }
            }
            assert forall|k: int| 0 <= k < o.len() - 1 && #[trigger] o[k] == ' ' implies o[k + 1] != ' ' by {
                if k > h {
                    assert(o[k] == tail[k - h - 1]);
                    assert(o[k + 1] == tail[k - h]);
                }
            }
            if tail.len() > 0 {
                assert(o.last() == tail.last());
            }
        }
    }
}

/// The credit markers a title is cut at.
pub open spec fn credit_marker(m: Seq<char>) -> bool {
    m == " feat. "@ || m == " feat "@ || m == " ft. "@ || m == " ft "@ || m == " featuring "@
}

proof fn lemma_no_match(s: Seq<char>, p: Seq<char>, j: int, k: int)
    requires
        0 <= k < p.len(),
        0 <= j + k < s.len() ==> s[j + k] != p[k],
    ensures
        !occurs_at(s, p, j),
{
    if occurs_at(s, p, j) {
        assert(s.subrange(j, j + p.len())[k] == s[j + k]);
    }
}

/// `p` occurs nowhere in `s`.
pub open spec fn absent(s: Seq<char>, p: Seq<char>) -> bool {
    forall|j: int| !#[trigger] occurs_at(s, p, j)
}

proof fn lemma_cut_absent(s: Seq<char>, p: Seq<char>)
    requires
        absent(s, p),
    ensures
        cut_at(s, p) == s,
{
}

proof fn lemma_strip_absent(s: Seq<char>, open: char, close: char)
    requires
        forall|k: int| 0 <= k < s.len() ==> #[trigger] s[k] != open && s[k] != close,
    ensures
        strip_from(s, open, close, 0) == s,
    decreases s.len(),
{
    if s.len() > 0 {
        let rest = s.drop_first();
        assert forall|k: int| 0 <= k < rest.len() implies #[trigger] rest[k] != open && rest[k] != close by {
            assert(rest[k] == s[k + 1]);
        }
        lemma_strip_absent(rest, open, close);
        assert(seq![s[0]] + rest =~= s);
    }
}

/// Every pattern the title is cut at, and every bracket, is absent from a
/// word of small letters and digits.
proof fn lemma_word_untouched(t: Seq<char>)
    requires
        forall|k: int| 0 <= k < t.len() ==> title_char(#[trigger] t[k]),
    ensures
        normalize_lowered_spec(t) == squash_whitespace(t.map_values(|c: char| clean_char(c))),
{
    reveal_strlit(" - ");
    reveal_strlit(" feat. ");
    reveal_strlit(" feat ");
    reveal_strlit(" ft. ");
    reveal_strlit(" ft ");
    reveal_strlit(" featuring ");
    assert forall|p: Seq<char>, j: int| p.len() > 0 && p[0] == ' ' implies !#[trigger] occurs_at(t, p, j) by {
        lemma_no_match(t, p, j, 0);
    }
    lemma_cut_absent(t, " - "@);
    lemma_strip_absent(t, '(', ')');
    lemma_strip_absent(t, '[', ']');
    lemma_cut_absent(t, " feat. "@);
    lemma_cut_absent(t, " feat "@);
    lemma_cut_absent(t, " ft. "@);
    lemma_cut_absent(t, " ft "@);
    lemma_cut_absent(t, " featuring "@);
}

/// A credit marker and everything after it are dropped: a word followed by
/// " feat. ", " feat ", " ft. ", " ft " or " featuring " and another word
/// normalizes like the first word alone.
pub proof fn credits_are_cut(t: Seq<char>, m: Seq<char>, x: Seq<char>)
    requires
        forall|k: int| 0 <= k < t.len() ==> title_char(#[trigger] t[k]),
        forall|k: int| 0 <= k < x.len() ==> title_char(#[trigger] x[k]),
        credit_marker(m),
    ensures
        normalize_lowered_spec(t + m + x) == normalize_lowered_spec(t),
{
    reveal_strlit(" - ");
    reveal_strlit(" feat. ");
    reveal_strlit(" feat ");
    reveal_strlit(" ft. ");
    reveal_strlit(" ft ");
    reveal_strlit(" featuring ");
    let s = t + m + x;
    let l = t.len() as int;
    let r = l + m.len() - 1;
    assert(m[0] == ' ' && m[m.len() - 1] == ' ');
    assert forall|k: int| 0 <= k < m.len() implies #[trigger] s[l + k] == m[k] by {}
    assert forall|k: int| 0 < k < x.len() + 1 implies #[trigger] s[r + k] == x[k - 1] && title_char(s[r + k]) by {}
    assert forall|j: int| 0 <= j < s.len() && #[trigger] s[j] == ' ' implies j == l || j == r by {
        if j < l {
            assert(s[j] == t[j]);
        } else if j > r {
            assert(s[j] == x[j - r - 1]);
        } else if l < j < r {
            assert(s[j] == m[j - l]);
        }
    }
    // What a cut pattern can meet: a space only at either end of the marker.
    let dash = " - "@;
    assert forall|j: int| !#[trigger] occurs_at(s, dash, j) by {
        if j == l || j == r {
            lemma_no_match(s, dash, j, 1);
        } else {
            lemma_no_match(s, dash, j, 0);
        }
    }
    assert forall|k: int| 0 <= k < s.len() implies #[trigger] s[k] != '(' && s[k] != ')' && s[k] != '[' && s[k]
        != ']' by {
        if k < l {
            assert(s[k] == t[k]);
        } else if k > r {
            assert(s[k] == x[k - r - 1]);
        } else {
            assert(s[k] == m[k - l]);
        }
    }
    lemma_cut_absent(s, dash);
    lemma_strip_absent(s, '(', ')');
    lemma_strip_absent(s, '[', ']');
    let pats = seq![" feat. "@, " feat "@, " ft. "@, " ft "@, " featuring "@];
    let hit: int = if m == pats[0] {
        0
    } else if m == pats[1] {
        1
    } else if m == pats[2] {
        2
    } else if m == pats[3] {
        3
    } else {
        4
    };
    assert(pats[hit] == m);
    // A pattern before the marker in the cutting order needs, at either end
    // of the marker, a character that is not there.
    assert forall|q: int| 0 <= q < hit implies #[trigger] absent(s, pats[q]) by {
        let p = pats[q];
        let odd: int = if q <= 1 {
            5
        } else {
            3
        };
        assert forall|j: int| !#[trigger] occurs_at(s, p, j) by {
            if j == r {
                lemma_no_match(s, p, j, odd);
            } else if j == l {
                if (q == 0 && hit == 1) || (q <= 1 && hit == 4) {
                    lemma_no_match(s, p, j, 5);
                } else if q == 2 && hit == 3 {
                    lemma_no_match(s, p, j, 3);
                } else {
                    lemma_no_match(s, p, j, 2);
                }
            } else {
                lemma_no_match(s, p, j, 0);
            }
        }
    }
    // The marker itself first occurs where it was put.
    assert(s.subrange(l, l + m.len()) =~= m);
    assert(is_first_occurrence(s, m, l)) by {
        assert forall|j: int| 0 <= j < l implies !occurs_at(s, m, j) by {
            lemma_no_match(s, m, j, 0);
        }
    }
    lemma_first_occurrence_unique(s, m, l);
    assert(s.subrange(0, l) =~= t);
    assert(cut_at(s, m) == t);
    assert forall|q: int| 0 <= q < 5 implies #[trigger] absent(t, pats[q]) by {
        assert forall|j: int| !#[trigger] occurs_at(t, pats[q], j) by {
            lemma_no_match(t, pats[q], j, 0);
        }
    }
    let c1 = cut_at(s, pats[0]);
    let c2 = cut_at(c1, pats[1]);
    let c3 = cut_at(c2, pats[2]);
    let c4 = cut_at(c3, pats[3]);
    let c5 = cut_at(c4, pats[4]);
    if hit > 0 {
        assert(absent(s, pats[0]));
        lemma_cut_absent(s, pats[0]);
    }
    assert(c1 == if hit == 0 { t } else { s });
    if hit > 1 {
        assert(absent(s, pats[1]));
        lemma_cut_absent(s, pats[1]);
    }
    if hit == 0 {
        assert(absent(t, pats[1]));
        lemma_cut_absent(t, pats[1]);
    }
    assert(c2 == if hit <= 1 { t } else { s });
    if hit > 2 {
        assert(absent(s, pats[2]));
        lemma_cut_absent(s, pats[2]);
    }
    if hit < 2 {
        assert(absent(t, pats[2]));
        lemma_cut_absent(t, pats[2]);
    }
    assert(c3 == if hit <= 2 { t } else { s });
    if hit > 3 {
        assert(absent(s, pats[3]));
        lemma_cut_absent(s, pats[3]);
    }
    if hit < 3 {
        assert(absent(t, pats[3]));
        lemma_cut_absent(t, pats[3]);
    }
    assert(c4 == if hit <= 3 { t } else { s });
    if hit < 4 {
        assert(absent(t, pats[4]));
        lemma_cut_absent(t, pats[4]);
    }
    assert(c5 == t);
    lemma_word_untouched(t);
}


/// An edition suffix after " - " is dropped: a word followed by " - " and
/// another word normalizes like the first word alone.
pub proof fn edition_suffixes_are_cut(t: Seq<char>, x: Seq<char>)
    requires
        forall|k: int| 0 <= k < t.len() ==> title_char(#[trigger] t[k]),
        forall|k: int| 0 <= k < x.len() ==> title_char(#[trigger] x[k]),
    ensures
        normalize_lowered_spec(t + " - "@ + x) == normalize_lowered_spec(t),
{
    reveal_strlit(" - ");
    let m = " - "@;
    let s = t + m + x;
    let l = t.len() as int;
    assert(s.subrange(l, l + 3) =~= m);
    assert(is_first_occurrence(s, m, l)) by {
        assert forall|j: int| 0 <= j < l implies !occurs_at(s, m, j) by {
            assert(s[j] == t[j]);
            lemma_no_match(s, m, j, 0);
        }
    }
    lemma_first_occurrence_unique(s, m, l);
    assert(s.subrange(0, l) =~= t);
    assert(cut_at(s, m) == t);
    lemma_word_untouched(t);
    assert forall|j: int| !#[trigger] occurs_at(t, m, j) by {
        lemma_no_match(t, m, j, 0);
    }
    lemma_cut_absent(t, m);
}

/// A bracketed qualifier is dropped: a word followed by a word in round or
/// square brackets normalizes like the first word alone.
pub proof fn bracketed_qualifiers_are_dropped(t: Seq<char>, x: Seq<char>, round: bool)
    requires
        forall|k: int| 0 <= k < t.len() ==> title_char(#[trigger] t[k]),
        forall|k: int| 0 <= k < x.len() ==> title_char(#[trigger] x[k]),
    ensures
        normalize_lowered_spec(t + (if round { seq!['('] } else { seq!['['] }) + x + (if round { seq![')'] } else { seq![']'] }))
            == normalize_lowered_spec(t),
{
    reveal_strlit(" - ");
    let o = if round { '(' } else { '[' };
    let c = if round { ')' } else { ']' };
    let s = t + seq![o] + x + seq![c];
    assert(s =~= t + (if round { seq!['('] } else { seq!['['] }) + x + (if round { seq![')'] } else { seq![']'] }));
    let dash = " - "@;
    assert forall|j: int| !#[trigger] occurs_at(s, dash, j) by {
        if 0 <= j < s.len() {
            if j < t.len() {
                assert(s[j] == t[j]);
            } else if j == t.len() {
                assert(s[j] == o);
            } else if j < t.len() + 1 + x.len() {
                assert(s[j] == x[j - t.len() - 1]);
            } else {
                assert(s[j] == c);
            }
        }
        lemma_no_match(s, dash, j, 0);
    }
    lemma_cut_absent(s, dash);
    // The bracket pair and what it holds go; the word before it stays.
    lemma_strip_absent(t, '(', ')');
    lemma_strip_absent(t, '[', ']');
    lemma_strip_prefix(t, seq![o] + x + seq![c], o, c);
    assert(s =~= t + (seq![o] + x + seq![c]));
    lemma_strip_group(x, o, c);
    assert(strip_from(s, o, c, 0) == t);
    let other_o = if round { '[' } else { '(' };
    let other_c = if round { ']' } else { ')' };
    lemma_strip_absent(t, other_o, other_c);
    assert forall|k: int| 0 <= k < s.len() implies #[trigger] s[k] != other_o && s[k] != other_c by {
        if k < t.len() {
            assert(s[k] == t[k]);
        } else if k == t.len() {
            assert(s[k] == o);
        } else if k < t.len() + 1 + x.len() {
            assert(s[k] == x[k - t.len() - 1]);
        } else {
            assert(s[k] == c);
        }
    }
    lemma_strip_absent(s, other_o, other_c);
    let s1 = strip_brackets_spec(strip_brackets_spec(cut_at(s, dash), '(', ')'), '[', ']');
    if round {
        assert(strip_brackets_spec(s, '(', ')') == t);
    } else {
        assert(strip_brackets_spec(s, '(', ')') == s);
    }
    assert(s1 == t);
    reveal_strlit(" feat. ");
    reveal_strlit(" feat ");
    reveal_strlit(" ft. ");
    reveal_strlit(" ft ");
    reveal_strlit(" featuring ");
    assert forall|p: Seq<char>| p.len() > 0 && p[0] == ' ' implies #[trigger] absent(t, p) by {
        assert forall|j: int| !#[trigger] occurs_at(t, p, j) by {
            lemma_no_match(t, p, j, 0);
        }
    }
    assert(absent(t, " feat. "@));
    assert(absent(t, " feat "@));
    assert(absent(t, " ft. "@));
    assert(absent(t, " ft "@));
    assert(absent(t, " featuring "@));
    lemma_word_untouched(t);
}

proof fn lemma_strip_prefix(t: Seq<char>, rest: Seq<char>, open: char, close: char)
    requires
        forall|k: int| 0 <= k < t.len() ==> #[trigger] t[k] != open && t[k] != close,
    ensures
        strip_from(t + rest, open, close, 0) == t + strip_from(rest, open, close, 0),
    decreases t.len(),
{
    if t.len() > 0 {
        let t2 = t.drop_first();
        assert forall|k: int| 0 <= k < t2.len() implies #[trigger] t2[k] != open && t2[k] != close by {
            assert(t2[k] == t[k + 1]);
        }
        lemma_strip_prefix(t2, rest, open, close);
        assert((t + rest).drop_first() =~= t2 + rest);
        assert((t + rest)[0] == t[0]);
        assert(seq![t[0]] + (t2 + strip_from(rest, open, close, 0)) =~= t + strip_from(rest, open, close, 0));
    } else {
        assert(t + rest =~= rest);
        assert(t + strip_from(rest, open, close, 0) =~= strip_from(rest, open, close, 0));
    }
}

proof fn lemma_strip_inside(x: Seq<char>, tail: Seq<char>, open: char, close: char, depth: nat)
    requires
        depth > 0,
        forall|k: int| 0 <= k < x.len() ==> #[trigger] x[k] != open && x[k] != close,
    ensures
        strip_from(x + tail, open, close, depth) == strip_from(tail, open, close, depth),
    decreases x.len(),
{
    if x.len() > 0 {
        let x2 = x.drop_first();
        assert forall|k: int| 0 <= k < x2.len() implies #[trigger] x2[k] != open && x2[k] != close by {
            assert(x2[k] == x[k + 1]);
        }
        lemma_strip_inside(x2, tail, open, close, depth);
        assert((x + tail).drop_first() =~= x2 + tail);
        assert((x + tail)[0] == x[0]);
    } else {
        assert(x + tail =~= tail);
    }
}

proof fn lemma_strip_group(x: Seq<char>, open: char, close: char)
    requires
        forall|k: int| 0 <= k < x.len() ==> title_char(#[trigger] x[k]),
        open == '(' || open == '[',
        close == ')' || close == ']',
    ensures
        strip_from(seq![open] + x + seq![close], open, close, 0) == Seq::<char>::empty(),
{
    let g = seq![open] + x + seq![close];
    assert forall|k: int| 0 <= k < x.len() implies #[trigger] x[k] != open && x[k] != close by {
        assert(title_char(x[k]));
    }
    assert(g.drop_first() =~= x + seq![close]);
    assert(g[0] == open);
    assert(strip_from(g, open, close, 0) == strip_from(x + seq![close], open, close, 1));
    lemma_strip_inside(x, seq![close], open, close, 1);
    let tl = seq![close];
    assert(tl.drop_first() =~= Seq::<char>::empty());
    assert(strip_from(tl, open, close, 1) == strip_from(Seq::<char>::empty(), open, close, 0));
}

fn clean_chars(s: &Vec<char>) -> (r: Vec<char>)
    ensures
        r@ == s@.map_values(|c: char| clean_char(c)),
        forall|k: int|
            0 <= k < s@.len() && (s@[k] as u32) < 128 ==> (is_alphanumeric_char(#[trigger] s@[k])
                == is_ascii_alphanumeric_spec(s@[k])),
{
    let mut r: Vec<char> = Vec::new();
    let mut i: usize = 0;
    while i < s.len()
        invariant
            i <= s.len(),
            r@ == s@.subrange(0, i as int).map_values(|c: char| clean_char(c)),
            forall|k: int|
                0 <= k < i && (s@[k] as u32) < 128 ==> (is_alphanumeric_char(#[trigger] s@[k])
                    == is_ascii_alphanumeric_spec(s@[k])),
        decreases s.len() - i,
    {
        let c = s[i];
        let k = if char_is_alphanumeric(c) || char_is_whitespace(c) {
            c
        } else {
            ' '
        };
        r.push(k);
        i += 1;
        assert(r@ =~= s@.subrange(0, i as int).map_values(|c: char| clean_char(c)));
    }
    assert(s@.subrange(0, s.len() as int) =~= s@);
    r
}

/// Lower-case a title, drop edition noise such as "(feat. X)", "[Remastered]",
/// "- 2011 Remaster", "- Live", strip punctuation and collapse whitespace.
pub fn normalize_title(title: &str) -> (r: String)
    ensures
        r@ == normalize_title_spec(title@),
        all_ascii(title@) ==> normalized_shape(r@),
{
    let lower = to_lowercase(title);
    proof {
        if all_ascii(title@) {
            assert forall|k: int| 0 <= k < lower@.len() implies ascii_plain(#[trigger] lower@[k]) by {
                let c = title@[k];
                assert(lower@[k] == ascii_lower_char(c));
                assert((c as u32) < 128);
            }
        }
    }
    normalize_lowered(lower.as_str())
}

/// The rest of `normalize_title` on an already lower-cased title.
pub fn normalize_lowered(lower: &str) -> (r: String)
    ensures
        r@ == normalize_lowered_spec(lower@),
        ascii_without_capitals(lower@) ==> normalized_shape(r@),
{
    let s0 = chars_of(lower);
    let s1 = cut_at_chars(&s0, &chars_of(" - "));
    let s2 = strip_brackets(&s1, '(', ')');
    let s3 = strip_brackets(&s2, '[', ']');
    let s4 = cut_at_chars(&s3, &chars_of(" feat. "));
    let s5 = cut_at_chars(&s4, &chars_of(" feat "));
    let s6 = cut_at_chars(&s5, &chars_of(" ft. "));
    let s7 = cut_at_chars(&s6, &chars_of(" ft "));
    let s8 = cut_at_chars(&s7, &chars_of(" featuring "));
    let cleaned = clean_chars(&s8);
    let out = squash_whitespace_chars(&cleaned);
    proof {
        if ascii_without_capitals(lower@) {
            lemma_prefix_keeps(s0@, s1@);
            lemma_strip_keeps(s1@, '(', ')', 0);
            lemma_strip_keeps(s2@, '[', ']', 0);
            lemma_prefix_keeps(s3@, s4@);
            lemma_prefix_keeps(s4@, s5@);
            lemma_prefix_keeps(s5@, s6@);
            lemma_prefix_keeps(s6@, s7@);
            lemma_prefix_keeps(s7@, s8@);
            assert forall|j: int| 0 <= j < cleaned@.len() && !is_whitespace_char(cleaned@[j]) implies #[trigger] title_char(
                cleaned@[j],
            ) by {
                let c = s8@[j];
                assert(cleaned@[j] == clean_char(c));
                assert(ascii_plain(c));
            }
            lemma_squash_shape(cleaned@, false, false);
        }
    }
    string_from_chars(out.as_slice())
}

// ---- keys ----------------------------------------------------------------------

/// The first credited artist of a comma-joined display string, trimmed and
/// lower-cased.
pub open spec fn primary_artist_key_spec(artists: Seq<char>) -> Seq<char> {
    lowercase_of(trim(before_char(artists, ',')))
}

/// Primary artist, lower-cased. `artists` is the comma-joined display string.
pub fn primary_artist_key(artists: &str) -> (r: String)
    ensures
        r@ == primary_artist_key_spec(artists@),
{
    let s = chars_of(artists);
    let mut comma: Vec<char> = Vec::new();
    comma.push(',');
    assert(comma@ =~= seq![',']);
    let first = cut_at_chars(&s, &comma);
    let trimmed = trim_chars(&first);
    let t = string_from_chars(trimmed.as_slice());
    to_lowercase(t.as_str())
}

/// The key that groups one song across URIs: normalized title, `|`, primary artist.
pub open spec fn name_key_spec(title: Seq<char>, artists: Seq<char>) -> Seq<char> {
    normalize_title_spec(title) + seq!['|'] + primary_artist_key_spec(artists)
}

/// Key that groups the same song across different URIs.
pub fn name_key(title: &str, artists: &str) -> (r: String)
    ensures
        r@ == name_key_spec(title@, artists@),
{
    let t = normalize_title(title);
    let a = primary_artist_key(artists);
    let mut bar: Vec<char> = Vec::new();
    bar.push('|');
    let left = concat_chars(&chars_of(t.as_str()), &bar);
    let all = concat_chars(&left, &chars_of(a.as_str()));
    string_from_chars(all.as_slice())
}

// ---- edit distance --------------------------------------------------------------

pub open spec fn min3(x: nat, y: nat, z: nat) -> nat {
    if x <= y && x <= z {
        x
    } else if y <= z {
        y
    } else {
        z
    }
}

/// Levenshtein distance: fewest single-character insertions, deletions and
/// substitutions turning `a` into `b`.
pub open spec fn edit_distance(a: Seq<char>, b: Seq<char>) -> nat
    decreases a.len() + b.len(),
{
    if a.len() == 0 {
        b.len()
    } else if b.len() == 0 {
        a.len()
    } else {
        min3(
            edit_distance(a.drop_last(), b) + 1,
            edit_distance(a, b.drop_last()) + 1,
            edit_distance(a.drop_last(), b.drop_last()) + (if a.last() == b.last() {
                0nat
            } else {
                1nat
            }),
        )
    }
}

pub proof fn lemma_edit_distance_bound(a: Seq<char>, b: Seq<char>)
    ensures
        edit_distance(a, b) <= if a.len() >= b.len() {
            a.len()
        } else {
            b.len()
        },
    decreases a.len() + b.len(),
{
    if a.len() > 0 && b.len() > 0 {
        lemma_edit_distance_bound(a.drop_last(), b.drop_last());
    }
}

/// Levenshtein distance between two character sequences.
pub fn levenshtein(a: &[char], b: &[char]) -> (d: usize)
    requires
        a@.len() < usize::MAX,
        b@.len() < usize::MAX,
    ensures
        d == edit_distance(a@, b@),
{
    let m = a.len();
    let n = b.len();
    let mut prev: Vec<usize> = Vec::new();
    let mut j: usize = 0;
    while j <= n
        invariant
            n == b@.len(),
            n < usize::MAX,
            j <= n + 1,
            prev@.len() == j,
            forall|k: int|
                0 <= k < j ==> #[trigger] prev@[k] == edit_distance(
                    a@.subrange(0, 0),
                    b@.subrange(0, k),
                ),
        decreases n + 1 - j,
    {
        prev.push(j);
        j += 1;
    }
    let mut i: usize = 0;
    while i < m
        invariant
            m == a@.len(),
            n == b@.len(),
            m < usize::MAX,
            n < usize::MAX,
            i <= m,
            prev@.len() == n + 1,
            forall|k: int|
                0 <= k <= n ==> #[trigger] prev@[k] == edit_distance(
                    a@.subrange(0, i as int),
                    b@.subrange(0, k),
                ),
        decreases m - i,
    {
        let ghost ai = a@.subrange(0, i as int);
        let ghost ai1 = a@.subrange(0, i + 1);
        assert(ai1.drop_last() =~= ai);
        let mut cur: Vec<usize> = Vec::new();
        cur.push(i + 1);
        assert(edit_distance(ai1, b@.subrange(0, 0)) == i + 1);
        let mut k: usize = 0;
        while k < n
            invariant
                m == a@.len(),
                n == b@.len(),
                m < usize::MAX,
                n < usize::MAX,
                i < m,
                k <= n,
                ai == a@.subrange(0, i as int),
                ai1 == a@.subrange(0, i + 1),
                ai1.drop_last() == ai,
                prev@.len() == n + 1,
                cur@.len() == k + 1,
                forall|t: int|
                    0 <= t <= n ==> #[trigger] prev@[t] == edit_distance(ai, b@.subrange(0, t)),
                forall|t: int|
                    0 <= t <= k ==> #[trigger] cur@[t] == edit_distance(ai1, b@.subrange(0, t)),
            decreases n - k,
        {
            let ghost bk1 = b@.subrange(0, k + 1);
            assert(bk1.drop_last() =~= b@.subrange(0, k as int));
            proof {
                lemma_edit_distance_bound(ai, b@.subrange(0, k + 1));
                lemma_edit_distance_bound(ai1, b@.subrange(0, k as int));
                lemma_edit_distance_bound(ai, b@.subrange(0, k as int));
            }
            let cost: usize = if a[i] == b[k] {
                0
            } else {
                1
            };
            let del = prev[k + 1] + 1;
            let ins = cur[k] + 1;
            let sub = prev[k] + cost;
            let best = if del <= ins && del <= sub {
                del
            } else if ins <= sub {
                ins
            } else {
                sub
            };
            cur.push(best);
            assert(ai1.last() == a@[i as int]);
            assert(bk1.last() == b@[k as int]);
            k += 1;
        }
        prev = cur;
        i += 1;
    }
    assert(a@.subrange(0, m as int) =~= a@);
    assert(b@.subrange(0, n as int) =~= b@);
    prev[n]
}

} // verus!
