//! The decisions of the Spotify HTTP client: which family of endpoints a
//! call belongs to, which families are paused after Spotify reports their
//! quota gone, and what to do with each response (retry, refresh, wait, pause
//! or fail).
use vstd::prelude::*;
use vstd::string::StringExecFns;

use crate::error::AppError;
use crate::models::{str_eq, ErrorEnvelope};
use crate::text::{
    chars_of, concat_chars, contains_sub, has_sub, lowercase_of, parse_i64, parse_i64_spec, parse_unsigned, parse_unsigned_spec,
    starts_with, starts_with_chars, string_from_chars, subrange_chars, to_lowercase, trim, trim_chars,
};

verus! {

pub const API_BASE: &'static str = "https://api.spotify.com/v1";

pub const MAX_ATTEMPTS: u32 = 5;

pub const MAX_RETRY_AFTER_SECS: u64 = 60;

/// Refresh the access token this many seconds before it actually expires.
pub const REFRESH_LEEWAY_SECS: i64 = 60;

/// How long to stop calling a family of endpoints after Spotify reports its
/// quota is gone. The next call after this is allowed through; if it fails
/// the same way the wait starts again.
pub const QUOTA_RETRY_SECS: i64 = 86400;

/// Families of endpoints whose quota Spotify reports separately; a family
/// that still has room keeps answering while another is exhausted.
#[derive(Debug, Clone, Copy, PartialEq, Eq, Structural)]
pub enum QuotaScope {
    /// `/artists`, `/albums`, `/search`.
    Catalog,
    /// `/playlists`, `/me/playlists`, `/me/tracks`.
    Playlists,
    /// `/me/player…`
    Player,
}

pub open spec fn scope_key(s: QuotaScope) -> Seq<char> {
    match s {
        QuotaScope::Catalog => "catalog"@,
        QuotaScope::Playlists => "playlists"@,
        QuotaScope::Player => "player"@,
    }
}

pub open spec fn scope_label(s: QuotaScope) -> Seq<char> {
    match s {
        QuotaScope::Catalog => "artist and album lookups"@,
        QuotaScope::Playlists => "playlist requests"@,
        QuotaScope::Player => "playback control"@,
    }
}

/// The part of a URL after the API base, or all of it.
pub open spec fn api_path(url: Seq<char>) -> Seq<char> {
    if starts_with(url, API_BASE@) {
        url.subrange(API_BASE@.len() as int, url.len() as int)
    } else {
        url
    }
}

/// The family of a URL; anything unrecognised counts as a playlist call
/// rather than escaping a pause.
pub open spec fn scope_of_url(url: Seq<char>) -> QuotaScope {
    let p = api_path(url);
    if starts_with(p, "/me/player"@) {
        QuotaScope::Player
    } else if starts_with(p, "/artists"@) || starts_with(p, "/albums"@) || starts_with(p, "/search"@) {
        QuotaScope::Catalog
    } else {
        QuotaScope::Playlists
    }
}

fn api_path_chars(url: &str) -> (r: Vec<char>)
    ensures
        r@ == api_path(url@),
{
    let u = chars_of(url);
    let base = chars_of(API_BASE);
    if starts_with_chars(&u, &base) {
        subrange_chars(&u, base.len(), u.len())
    } else {
        u
    }
}

impl QuotaScope {
    pub fn key(self) -> (r: &'static str)
        ensures
            r@ == scope_key(self),
    {
        match self {
            QuotaScope::Catalog => "catalog",
            QuotaScope::Playlists => "playlists",
            QuotaScope::Player => "player",
        }
    }

    /// What to call this family in a sentence aimed at the user.
    pub fn label(self) -> (r: &'static str)
        ensures
            r@ == scope_label(self),
    {
        match self {
            QuotaScope::Catalog => "artist and album lookups",
            QuotaScope::Playlists => "playlist requests",
            QuotaScope::Player => "playback control",
        }
    }

    pub fn of_url(url: &str) -> (r: QuotaScope)
        ensures
            r == scope_of_url(url@),
    {
        let p = api_path_chars(url);
        if starts_with_chars(&p, &chars_of("/me/player")) {
            QuotaScope::Player
        } else if starts_with_chars(&p, &chars_of("/artists")) || starts_with_chars(&p, &chars_of("/albums"))
            || starts_with_chars(&p, &chars_of("/search")) {
            QuotaScope::Catalog
        } else {
            QuotaScope::Playlists
        }
    }
}

/// The request methods the client sends.
#[derive(Debug, Clone, Copy, PartialEq, Eq, Structural)]
pub enum HttpMethod {
    Get,
    Post,
    Put,
    Delete,
}

/// The one call allowed during a pause: the player poll.
pub open spec fn is_probe_spec(method: HttpMethod, url: Seq<char>) -> bool {
    let p = api_path(url);
    method == HttpMethod::Get && (p == "/me/player"@ || starts_with(p, "/me/player?"@))
}

pub fn is_probe(method: HttpMethod, url: &str) -> (r: bool)
    ensures
        r == is_probe_spec(method, url@),
{
    let p = api_path_chars(url);
    let is_get = match method {
        HttpMethod::Get => true,
        _ => false,
    };
    if !is_get {
        return false;
    }
    let exact = chars_of("/me/player");
    assert(p@.subrange(0, p@.len() as int) =~= p@);
    let same = p.len() == exact.len() && starts_with_chars(&p, &exact);
    proof {
        if p@.len() == exact@.len() && starts_with(p@, exact@) {
            assert(p@ =~= p@.subrange(0, exact@.len() as int));
        }
    }
    same || starts_with_chars(&p, &chars_of("/me/player?"))
}

// ---- pauses ----------------------------------------------------------------------------

/// Retry times per paused family, keyed by `QuotaScope::key`. Families that
/// are not paused are absent, so an empty list means everything works.
#[derive(Debug, Clone)]
pub struct QuotaStatus {
    pub scopes: Vec<(String, i64)>,
}

pub type PauseList = Seq<(Seq<char>, i64)>;

pub open spec fn pauses(s: QuotaStatus) -> PauseList {
    s.scopes@.map_values(|p: (String, i64)| (p.0@, p.1))
}

/// The retry time recorded for `key` (the last entry for it).
pub open spec fn lookup(v: PauseList, key: Seq<char>) -> Option<i64>
    decreases v.len(),
{
    if v.len() == 0 {
        None
    } else if v.last().0 == key {
        Some(v.last().1)
    } else {
        lookup(v.drop_last(), key)
    }
}

/// Each family appears at most once, as in a map.
pub open spec fn distinct_keys(v: PauseList) -> bool {
    forall|i: int, j: int| 0 <= i < j < v.len() ==> v[i].0 != v[j].0
}

/// A pause still running at `now`.
pub open spec fn running(now: i64) -> spec_fn((Seq<char>, i64)) -> bool {
    |p: (Seq<char>, i64)| p.1 > now
}

/// A pause of another family than `key`.
pub open spec fn other_than(key: Seq<char>) -> spec_fn((Seq<char>, i64)) -> bool {
    |p: (Seq<char>, i64)| p.0 != key
}

/// The pauses still running at `now`.
pub open spec fn active(v: PauseList, now: i64) -> PauseList {
    v.filter(running(now))
}

/// The pauses without `key`.
pub open spec fn removed(v: PauseList, key: Seq<char>) -> PauseList {
    v.filter(other_than(key))
}

/// The running pauses with `scope` paused (again) for a day from `now`.
pub open spec fn paused(v: PauseList, scope: QuotaScope, now: i64) -> PauseList {
    removed(active(v, now), scope_key(scope)).push((scope_key(scope), (now + QUOTA_RETRY_SECS) as i64))
}

/// The running pauses with `scope` recovered.
pub open spec fn recovered(v: PauseList, scope: QuotaScope, now: i64) -> PauseList {
    removed(active(v, now), scope_key(scope))
}

proof fn lemma_lookup_absent(v: PauseList, key: Seq<char>)
    requires
        forall|i: int| 0 <= i < v.len() ==> v[i].0 != key,
    ensures
        lookup(v, key) is None,
    decreases v.len(),
{
    if v.len() > 0 {
        assert(v.last() == v[v.len() - 1]);
        lemma_lookup_absent(v.drop_last(), key);
    }
}

/// Filtering by a predicate that ignores the key keeps the lookup of a key
/// whose entry passes, and loses it otherwise (keys distinct).
proof fn lemma_lookup_filter(v: PauseList, f: spec_fn((Seq<char>, i64)) -> bool, key: Seq<char>)
    requires
        distinct_keys(v),
    ensures
        lookup(v.filter(f), key) == match lookup(v, key) {
            Some(u) => if f((key, u)) {
                Some(u)
            } else {
                None::<i64>
            },
            None => None::<i64>,
        },
    decreases v.len(),
{
    reveal_with_fuel(Seq::filter, 1);
    if v.len() > 0 {
        let d = v.drop_last();
        let x = v.last();
        assert(distinct_keys(d));
        lemma_lookup_filter(d, f, key);
        let fd = d.filter(f);
        if f(x) {
            assert(fd.push(x).drop_last() =~= fd);
        }
        if x.0 == key {
            assert forall|i: int| 0 <= i < d.len() implies d[i].0 != key by {
                assert(v[i].0 != v[v.len() - 1].0);
            }
            lemma_lookup_absent(d, key);
            lemma_filter_keeps(d, f);
            assert forall|i: int| 0 <= i < fd.len() implies fd[i].0 != key by {
                assert(d.contains(fd[i]));
                let w = choose|w: int| 0 <= w < d.len() && d[w] == fd[i];
                assert(d[w].0 != key);
            }
            lemma_lookup_absent(fd, key);
        }
    }
}

/// Every entry of a filtered list comes from the list.
proof fn lemma_filter_keeps(v: PauseList, f: spec_fn((Seq<char>, i64)) -> bool)
    ensures
        forall|i: int| 0 <= i < v.filter(f).len() ==> v.contains(#[trigger] v.filter(f)[i]),
{
    assert forall|i: int| 0 <= i < v.filter(f).len() implies v.contains(#[trigger] v.filter(f)[i]) by {
        assert(v.filter(f).contains(v.filter(f)[i]));
        v.lemma_filter_contains_rev(f, v.filter(f)[i]);
    }
}

proof fn lemma_lookup_removed(v: PauseList, gone: Seq<char>, key: Seq<char>)
    ensures
        lookup(removed(v, gone), key) == if key == gone {
            None::<i64>
        } else {
            lookup(v, key)
        },
    decreases v.len(),
{
    reveal_with_fuel(Seq::filter, 1);
    if v.len() > 0 {
        let d = v.drop_last();
        lemma_lookup_removed(d, gone, key);
        let fd = removed(d, gone);
        if v.last().0 != gone {
            assert(fd.push(v.last()).drop_last() =~= fd);
        }
    }
}

proof fn lemma_filter_distinct(v: PauseList, f: spec_fn((Seq<char>, i64)) -> bool)
    requires
        distinct_keys(v),
    ensures
        distinct_keys(v.filter(f)),
    decreases v.len(),
{
    reveal_with_fuel(Seq::filter, 1);
    if v.len() > 0 {
        let d = v.drop_last();
        assert(distinct_keys(d));
        lemma_filter_distinct(d, f);
        let fd = d.filter(f);
        lemma_filter_keeps(d, f);
        if f(v.last()) {
            let r = fd.push(v.last());
            assert forall|i: int, j: int| 0 <= i < j < r.len() implies r[i].0 != r[j].0 by {
                if j == r.len() - 1 {
                    assert(d.contains(fd[i]));
                    let w = choose|w: int| 0 <= w < d.len() && d[w] == fd[i];
                    assert(v[w].0 != v[v.len() - 1].0);
                } else {
                    assert(r[i] == fd[i] && r[j] == fd[j]);
                }
            }
        }
    }
}

proof fn lemma_step_lookups(v: PauseList, scope: QuotaScope, now: i64, key: Seq<char>)
    ensures
        lookup(paused(v, scope, now), scope_key(scope)) == Some((now + QUOTA_RETRY_SECS) as i64),
        key != scope_key(scope) ==> lookup(paused(v, scope, now), key) == lookup(active(v, now), key),
        lookup(recovered(v, scope, now), scope_key(scope)) is None,
        key != scope_key(scope) ==> lookup(recovered(v, scope, now), key) == lookup(active(v, now), key),
{
    let k = scope_key(scope);
    let a = active(v, now);
    lemma_lookup_removed(a, k, key);
    lemma_lookup_removed(a, k, k);
    let r = removed(a, k);
    let x = (k, (now + QUOTA_RETRY_SECS) as i64);
    assert(r.push(x).drop_last() =~= r);
    assert(r.push(x).last() == x);
}

/// Everything that a pause list promises: pausing a family pauses it for a
/// day and leaves the other families as they were; recovering a family
/// ends its pause only; a pause is over once its time has passed.
pub proof fn pauses_are_per_family(v: PauseList, scope: QuotaScope, now: i64, key: Seq<char>)
    requires
        distinct_keys(v),
        now <= i64::MAX - QUOTA_RETRY_SECS,
    ensures
        lookup(paused(v, scope, now), scope_key(scope)) == Some((now + QUOTA_RETRY_SECS) as i64),
        key != scope_key(scope) ==> lookup(paused(v, scope, now), key) == lookup(active(v, now), key),
        lookup(recovered(v, scope, now), scope_key(scope)) is None,
        key != scope_key(scope) ==> lookup(recovered(v, scope, now), key) == lookup(active(v, now), key),
        lookup(active(v, now), key) == match lookup(v, key) {
            Some(u) => if u > now {
                Some(u)
            } else {
                None::<i64>
            },
            None => None::<i64>,
        },
        distinct_keys(paused(v, scope, now)),
        distinct_keys(recovered(v, scope, now)),
{
    let k = scope_key(scope);
    lemma_lookup_filter(v, running(now), key);
    let a = active(v, now);
    lemma_lookup_removed(a, k, key);
    lemma_lookup_removed(a, k, k);
    lemma_filter_distinct(v, running(now));
    lemma_filter_distinct(a, other_than(k));
    let r = removed(a, k);
    let x = (k, (now + QUOTA_RETRY_SECS) as i64);
    let pz = r.push(x);
    assert(pz.drop_last() =~= r);
    assert forall|i: int, j: int| 0 <= i < j < pz.len() implies pz[i].0 != pz[j].0 by {
        if j == pz.len() - 1 {
            assert(pz[i] == r[i]);
            a.lemma_filter_pred(other_than(k), i);
            assert(other_than(k)(r[i]));
        } else {
            assert(pz[i] == r[i] && pz[j] == r[j]);
        }
    }
}

fn find_scope(scopes: &Vec<(String, i64)>, key: &str) -> (r: Option<i64>)
    ensures
        r == lookup(scopes@.map_values(|p: (String, i64)| (p.0@, p.1)), key@),
{
    let ghost v = scopes@.map_values(|p: (String, i64)| (p.0@, p.1));
    assert(v.subrange(0, v.len() as int) =~= v);
    let mut k: usize = scopes.len();
    while k > 0
        invariant
            k <= scopes@.len(),
            v == scopes@.map_values(|p: (String, i64)| (p.0@, p.1)),
            lookup(v, key@) == lookup(v.subrange(0, k as int), key@),
        decreases k,
    {
        let ghost s = v.subrange(0, k as int);
        assert(s.drop_last() =~= v.subrange(0, k - 1));
        assert(s.last() == v[k - 1]);
        if str_eq(scopes[k - 1].0.as_str(), key) {
            return Some(scopes[k - 1].1);
        }
        k -= 1;
    }
    None
}

impl QuotaStatus {
    pub fn until(&self, scope: QuotaScope) -> (r: Option<i64>)
        ensures
            r == lookup(pauses(*self), scope_key(scope)),
    {
        find_scope(&self.scopes, scope.key())
    }

    pub fn is_paused(&self, scope: QuotaScope) -> (r: bool)
        ensures
            r == lookup(pauses(*self), scope_key(scope)) is Some,
    {
        self.until(scope).is_some()
    }

    /// The pauses still running at `now` (what the client reports).
    pub fn active_at(&self, now: i64) -> (r: QuotaStatus)
        ensures
            pauses(r) == active(pauses(*self), now),
    {
        let ghost v = pauses(*self);
        let mut out: Vec<(String, i64)> = Vec::new();
        let mut k: usize = 0;
        while k < self.scopes.len()
            invariant
                k <= self.scopes@.len(),
                v == pauses(*self),
                out@.map_values(|p: (String, i64)| (p.0@, p.1)) == active(v.subrange(0, k as int), now),
            decreases self.scopes@.len() - k,
        {
            let ghost pre = v.subrange(0, k as int);
            let ghost before = out@;
            assert(v.subrange(0, k + 1).drop_last() =~= pre);
            assert(v.subrange(0, k + 1).last() == v[k as int]);
            proof {
                reveal_with_fuel(Seq::filter, 1);
            }
            if self.scopes[k].1 > now {
                out.push((self.scopes[k].0.clone(), self.scopes[k].1));
                assert(out@.map_values(|p: (String, i64)| (p.0@, p.1)) =~= before.map_values(
                    |p: (String, i64)| (p.0@, p.1),
                ).push(v[k as int]));
            }
            k += 1;
        }
        assert(v.subrange(0, v.len() as int) =~= v);
        QuotaStatus { scopes: out }
    }

    fn without_key(&self, key: &str) -> (r: (QuotaStatus, bool))
        ensures
            pauses(r.0) == removed(pauses(*self), key@),
            r.1 == (lookup(pauses(*self), key@) is Some),
    {
        let ghost v = pauses(*self);
        let mut out: Vec<(String, i64)> = Vec::new();
        let mut found = false;
        let mut k: usize = 0;
        while k < self.scopes.len()
            invariant
                k <= self.scopes@.len(),
                v == pauses(*self),
                out@.map_values(|p: (String, i64)| (p.0@, p.1)) == removed(v.subrange(0, k as int), key@),
                found == (lookup(v.subrange(0, k as int), key@) is Some),
            decreases self.scopes@.len() - k,
        {
            let ghost pre = v.subrange(0, k as int);
            let ghost before = out@;
            assert(v.subrange(0, k + 1).drop_last() =~= pre);
            assert(v.subrange(0, k + 1).last() == v[k as int]);
            proof {
                reveal_with_fuel(Seq::filter, 1);
            }
            if str_eq(self.scopes[k].0.as_str(), key) {
                found = true;
            } else {
                out.push((self.scopes[k].0.clone(), self.scopes[k].1));
                assert(out@.map_values(|p: (String, i64)| (p.0@, p.1)) =~= before.map_values(
                    |p: (String, i64)| (p.0@, p.1),
                ).push(v[k as int]));
            }
            k += 1;
        }
        assert(v.subrange(0, v.len() as int) =~= v);
        (QuotaStatus { scopes: out }, found)
    }

    /// Spotify reported `scope`'s quota gone at `now`: pause it for a day.
    pub fn with_pause(&self, scope: QuotaScope, now: i64) -> (r: QuotaStatus)
        requires
            now <= i64::MAX - QUOTA_RETRY_SECS,
        ensures
            pauses(r) == paused(pauses(*self), scope, now),
            lookup(pauses(r), scope_key(scope)) == Some((now + QUOTA_RETRY_SECS) as i64),
            forall|key: Seq<char>|
                key != scope_key(scope) ==> #[trigger] lookup(pauses(r), key) == lookup(
                    active(pauses(*self), now),
                    key,
                ),
            distinct_keys(pauses(*self)) ==> distinct_keys(pauses(r)),
    {
        let running = self.active_at(now);
        let (mut rest, _) = running.without_key(scope.key());
        let ghost before = rest.scopes@;
        rest.scopes.push((String::from_str(scope.key()), now + QUOTA_RETRY_SECS));
        assert(pauses(rest) =~= before.map_values(|p: (String, i64)| (p.0@, p.1)).push(
            (scope_key(scope), (now + QUOTA_RETRY_SECS) as i64),
        ));
        proof {
            let v = pauses(*self);
            lemma_step_lookups(v, scope, now, scope_key(scope));
            assert forall|key: Seq<char>| key != scope_key(scope) implies #[trigger] lookup(pauses(rest), key)
                == lookup(active(v, now), key) by {
                lemma_step_lookups(v, scope, now, key);
            }
            if distinct_keys(v) {
                pauses_are_per_family(v, scope, now, scope_key(scope));
            }
        }
        rest
    }

    /// A successful call proves `scope` is back: end its pause. Also says
    /// whether it was paused, so the caller knows to store the change.
    pub fn without(&self, scope: QuotaScope, now: i64) -> (r: (QuotaStatus, bool))
        ensures
            pauses(r.0) == recovered(pauses(*self), scope, now),
            r.1 == (lookup(active(pauses(*self), now), scope_key(scope)) is Some),
            lookup(pauses(r.0), scope_key(scope)) is None,
            forall|key: Seq<char>|
                key != scope_key(scope) ==> #[trigger] lookup(pauses(r.0), key) == lookup(
                    active(pauses(*self), now),
                    key,
                ),
            distinct_keys(pauses(*self)) ==> distinct_keys(pauses(r.0)),
    {
        let live = self.active_at(now);
        let r = live.without_key(scope.key());
        proof {
            let v = pauses(*self);
            lemma_step_lookups(v, scope, now, scope_key(scope));
            assert forall|key: Seq<char>| key != scope_key(scope) implies #[trigger] lookup(pauses(r.0), key)
                == lookup(active(v, now), key) by {
                lemma_step_lookups(v, scope, now, key);
            }
            if distinct_keys(v) {
                lemma_filter_distinct(v, running(now));
                lemma_filter_distinct(active(v, now), other_than(scope_key(scope)));
            }
        }
        r
    }

    /// No family paused.
    pub fn cleared() -> (r: QuotaStatus)
        ensures
            pauses(r).len() == 0,
    {
        QuotaStatus { scopes: Vec::new() }
    }
}

impl Default for QuotaStatus {
    fn default() -> (r: QuotaStatus)
        ensures
            pauses(r).len() == 0,
    {
        QuotaStatus { scopes: Vec::new() }
    }
}

/// The error for a call to a paused family, unless the call is the probe.
pub fn blocked_by_pause(method: HttpMethod, url: &str, status: &QuotaStatus) -> (r: Option<AppError>)
    ensures
        is_probe_spec(method, url@) ==> r is None,
        !is_probe_spec(method, url@) ==> match lookup(pauses(*status), scope_key(scope_of_url(url@))) {
            Some(until) => r matches Some(AppError::QuotaCooldown { until: u, what }) && u == until && what@
                == scope_label(scope_of_url(url@)),
            None => r is None,
        },
{
    if is_probe(method, url) {
        return None;
    }
    let scope = QuotaScope::of_url(url);
    match status.until(scope) {
        Some(until) => Some(AppError::QuotaCooldown { until, what: String::from_str(scope.label()) }),
        None => None,
    }
}

// ---- responses ---------------------------------------------------------------------------

/// Milliseconds to wait before retry `attempt`: 500 ms doubling, capped at
/// the fifth doubling.
pub open spec fn backoff_spec(attempt: u32) -> u64 {
    let e = if attempt < 5 {
        attempt
    } else {
        5
    };
    (500 * pow2(e as nat)) as u64
}

pub open spec fn pow2(e: nat) -> nat
    decreases e,
{
    if e == 0 {
        1
    } else {
        2 * pow2((e - 1) as nat)
    }
}

pub fn backoff(attempt: u32) -> (ms: u64)
    ensures
        ms == backoff_spec(attempt),
        500 <= ms <= 16000,
{
    let e = if attempt < 5 {
        attempt
    } else {
        5
    };
    let mut m: u64 = 500;
    let mut k: u32 = 0;
    while k < e
        invariant
            k <= e <= 5,
            m == 500 * pow2(k as nat),
            m <= 500 * 32,
        decreases e - k,
    {
        proof {
            assert(pow2((k + 1) as nat) == 2 * pow2(k as nat));
            if k < 5 {
                assert(pow2(k as nat) <= 16) by {
                    reveal_with_fuel(pow2, 6);
                }
            }
        }
        m = m * 2;
        k += 1;
    }
    assert(pow2(e as nat) >= 1) by {
        reveal_with_fuel(pow2, 6);
    }
    m
}

/// What to do with a response, or after a failed send.
#[derive(Debug)]
pub enum ResponseAction {
    /// Success: end the family's pause; the body text, unless empty.
    Done { body: Option<String> },
    /// A first 401: refresh the token and try again.
    RefreshAndRetry,
    /// Rate limited: wait this many seconds and try again.
    WaitAndRetry { secs: u64 },
    /// Transient failure: wait this many milliseconds and try again.
    BackoffAndRetry { ms: u64 },
    /// The family's quota is gone: pause it and fail.
    PauseAndFail { error: AppError },
    Fail { error: AppError },
}

pub open spec fn is_success(status: u16) -> bool {
    200 <= status <= 299
}

pub open spec fn is_server_error(status: u16) -> bool {
    500 <= status <= 599
}

/// The message of an error response: the envelope's, else the first 200
/// characters of the body.
pub open spec fn error_message(text: Seq<char>, envelope: Option<ErrorEnvelope>) -> Seq<char> {
    match envelope {
        Some(e) if e.error.message is Some => e.error.message->Some_0@,
        _ => if text.len() <= 200 {
            text
        } else {
            text.subrange(0, 200)
        },
    }
}

pub open spec fn error_reason(envelope: Option<ErrorEnvelope>) -> Option<Seq<char>> {
    match envelope {
        Some(e) => match e.error.reason {
            Some(r) => Some(r@),
            None => None,
        },
        None => None,
    }
}

pub open spec fn reason_is(envelope: Option<ErrorEnvelope>, r: Seq<char>) -> bool {
    error_reason(envelope) == Some(r)
}

/// The retry wait for a 429: the header's seconds (2 without one), kept
/// between 1 and 60.
pub open spec fn retry_wait(retry_after: Option<u64>) -> u64 {
    let w = match retry_after {
        Some(w) => w,
        None => 2,
    };
    if w < 1 {
        1
    } else if w > MAX_RETRY_AFTER_SECS {
        MAX_RETRY_AFTER_SECS
    } else {
        w
    }
}

fn message_of(text: &str, envelope: &Option<ErrorEnvelope>) -> (r: String)
    ensures
        r@ == error_message(text@, *envelope),
{
    match envelope {
        Some(e) => match &e.error.message {
            Some(m) => {
                return m.clone();
            },
            None => {},
        },
        None => {},
    }
    let c = chars_of(text);
    if c.len() <= 200 {
        string_from_chars(c.as_slice())
    } else {
        let head = subrange_chars(&c, 0, 200);
        string_from_chars(head.as_slice())
    }
}

fn reason_equals(envelope: &Option<ErrorEnvelope>, r: &str) -> (b: bool)
    ensures
        b == reason_is(*envelope, r@),
{
    match envelope {
        Some(e) => match &e.error.reason {
            Some(x) => str_eq(x.as_str(), r),
            None => false,
        },
        None => false,
    }
}

fn text_has(text: &str, needle: &str) -> (b: bool)
    ensures
        b == has_sub(text@, needle@),
{
    contains_sub(&chars_of(text), &chars_of(needle))
}

/// The action for an HTTP response to a call in `scope`, on try `attempt`.
pub open spec fn response_action_ok(
    status: u16,
    text: Seq<char>,
    envelope: Option<ErrorEnvelope>,
    scope: QuotaScope,
    attempt: u32,
    refreshed_after_401: bool,
    retry_after: Option<u64>,
    r: ResponseAction,
) -> bool {
    let message = error_message(text, envelope);
    if is_success(status) {
        r matches ResponseAction::Done { body } && (if status == 204 || trim(text).len() == 0 {
            body is None
        } else {
            body matches Some(b) && b@ == text
        })
    } else if status == 401 {
        if refreshed_after_401 {
            r matches ResponseAction::Fail { error: AppError::AuthExpired }
        } else {
            r matches ResponseAction::RefreshAndRetry
        }
    } else if status == 429 {
        if reason_is(envelope, "QUOTA_EXCEEDED"@) || has_sub(text, "QUOTA_EXCEEDED"@) {
            r matches ResponseAction::PauseAndFail { error: AppError::QuotaExceeded { what } } && what@
                == scope_label(scope)
        } else if attempt >= MAX_ATTEMPTS {
            r matches ResponseAction::Fail { error: AppError::RateLimited }
        } else {
            r == ResponseAction::WaitAndRetry { secs: retry_wait(retry_after) }
        }
    } else if status == 403 {
        if reason_is(envelope, "PREMIUM_REQUIRED"@) || has_sub(message, "PREMIUM_REQUIRED"@) {
            r matches ResponseAction::Fail { error: AppError::PremiumRequired }
        } else {
            r matches ResponseAction::Fail { error: AppError::Spotify { status: s, message: m } } && s == 403
                && m@ == message
        }
    } else if status == 404 {
        if reason_is(envelope, "NO_ACTIVE_DEVICE"@) || has_sub(message, "No active device"@) {
            r matches ResponseAction::Fail { error: AppError::NoActiveDevice }
        } else {
            r matches ResponseAction::Fail { error: AppError::Spotify { status: s, message: m } } && s == 404
                && m@ == message
        }
    } else if is_server_error(status) && attempt < MAX_ATTEMPTS {
        r == ResponseAction::BackoffAndRetry { ms: backoff_spec(attempt) }
    } else {
        r matches ResponseAction::Fail { error: AppError::Spotify { status: s, message: m } } && s == status
            && m@ == message
    }
}

/// A call is given up after its last attempt: no response on the last
/// attempt leads to another wait or back-off, a second 401 never leads to
/// another refresh, and every wait stays between its floor and its cap.
pub proof fn retries_end_at_the_last_attempt(
    status: u16,
    text: Seq<char>,
    envelope: Option<ErrorEnvelope>,
    scope: QuotaScope,
    attempt: u32,
    refreshed_after_401: bool,
    retry_after: Option<u64>,
    r: ResponseAction,
)
    requires
        response_action_ok(status, text, envelope, scope, attempt, refreshed_after_401, retry_after, r),
    ensures
        attempt >= MAX_ATTEMPTS ==> !(r is WaitAndRetry || r is BackoffAndRetry),
        refreshed_after_401 ==> !(r is RefreshAndRetry),
        r matches ResponseAction::WaitAndRetry { secs } ==> 1 <= secs <= MAX_RETRY_AFTER_SECS,
        r matches ResponseAction::BackoffAndRetry { ms } ==> 500 <= ms <= 16000,
{
    if r is BackoffAndRetry {
        lemma_pow2_bounds(attempt);
    }
}

proof fn lemma_pow2_bounds(attempt: u32)
    ensures
        500 <= backoff_spec(attempt) <= 16000,
{
    let e: nat = if attempt < 5 {
        attempt as nat
    } else {
        5
    };
    assert(1 <= pow2(e) <= 32) by {
        reveal_with_fuel(pow2, 6);
    }
}

/// Decide what a response means: success, a refresh, a wait, a pause or a
/// failure.
pub fn decide_response(
    status: u16,
    text: &str,
    envelope: &Option<ErrorEnvelope>,
    scope: QuotaScope,
    attempt: u32,
    refreshed_after_401: bool,
    retry_after: Option<u64>,
) -> (r: ResponseAction)
    ensures
        response_action_ok(status, text@, *envelope, scope, attempt, refreshed_after_401, retry_after, r),
{
    if 200 <= status && status <= 299 {
        let trimmed = trim_chars(&chars_of(text));
        if status == 204 || trimmed.len() == 0 {
            return ResponseAction::Done { body: None };
        }
        return ResponseAction::Done { body: Some(String::from_str(text)) };
    }
    let message = message_of(text, envelope);
    if status == 401 {
        if refreshed_after_401 {
            return ResponseAction::Fail { error: AppError::AuthExpired };
        }
        return ResponseAction::RefreshAndRetry;
    }
    if status == 429 {
        if reason_equals(envelope, "QUOTA_EXCEEDED") || text_has(text, "QUOTA_EXCEEDED") {
            return ResponseAction::PauseAndFail {
                error: AppError::QuotaExceeded { what: String::from_str(scope.label()) },
            };
        }
        if attempt >= MAX_ATTEMPTS {
            return ResponseAction::Fail { error: AppError::RateLimited };
        }
        let w = match retry_after {
            Some(w) => w,
            None => 2,
        };
        let secs = if w < 1 {
            1
        } else if w > MAX_RETRY_AFTER_SECS {
            MAX_RETRY_AFTER_SECS
        } else {
            w
        };
        return ResponseAction::WaitAndRetry { secs };
    }
    if status == 403 {
        if reason_equals(envelope, "PREMIUM_REQUIRED") || text_has(message.as_str(), "PREMIUM_REQUIRED") {
            return ResponseAction::Fail { error: AppError::PremiumRequired };
        }
        return ResponseAction::Fail { error: AppError::Spotify { status: 403, message } };
    }
    if status == 404 {
        if reason_equals(envelope, "NO_ACTIVE_DEVICE") || text_has(message.as_str(), "No active device") {
            return ResponseAction::Fail { error: AppError::NoActiveDevice };
        }
        return ResponseAction::Fail { error: AppError::Spotify { status: 404, message } };
    }
    if 500 <= status && status <= 599 && attempt < MAX_ATTEMPTS {
        return ResponseAction::BackoffAndRetry { ms: backoff(attempt) };
    }
    ResponseAction::Fail { error: AppError::Spotify { status, message } }
}

/// The `Retry-After` header in seconds, when it reads as a number.
pub fn retry_after_secs(header: Option<&str>) -> (r: Option<u64>)
    ensures
        r == match header {
            Some(h) => match parse_unsigned_spec(h@, u64::MAX as int) {
                Some(v) => Some(v as u64),
                None => None::<u64>,
            },
            None => None::<u64>,
        },
{
    match header {
        Some(h) => parse_unsigned(&chars_of(h), u64::MAX),
        None => None,
    }
}

/// After a send that failed without a response: retry transient failures
/// (connect, timeout, request) while attempts remain.
pub fn network_retry(attempt: u32, transient: bool) -> (r: Option<u64>)
    ensures
        r == (if attempt < MAX_ATTEMPTS && transient {
            Some(backoff_spec(attempt))
        } else {
            None::<u64>
        }),
{
    if attempt < MAX_ATTEMPTS && transient {
        Some(backoff(attempt))
    } else {
        None
    }
}

// ---- credentials --------------------------------------------------------------------

/// The stored Client ID, when one is set.
pub fn stored_client_id(stored: Option<String>) -> (r: Result<String, AppError>)
    ensures
        (stored matches Some(s) && s@.len() > 0) ==> r == Ok::<String, AppError>(stored->Some_0),
        !(stored matches Some(s) && s@.len() > 0) ==> r matches Err(AppError::NoClientId),
{
    match stored {
        Some(s) => {
            if chars_of(s.as_str()).len() > 0 {
                Ok(s)
            } else {
                Err(AppError::NoClientId)
            }
        },
        None => Err(AppError::NoClientId),
    }
}

/// Signed in means a refresh token is stored.
pub fn has_session(refresh_token: Option<&str>) -> (r: bool)
    ensures
        r == (refresh_token matches Some(t) && t@.len() > 0),
{
    match refresh_token {
        Some(t) => chars_of(t).len() > 0,
        None => false,
    }
}

/// When a token handed out at `now`, valid for `expires_in` seconds, runs
/// out.
pub fn token_expiry(now: i64, expires_in: u64) -> (r: i64)
    requires
        expires_in <= i64::MAX,
        now + expires_in <= i64::MAX,
    ensures
        r == now + expires_in,
{
    now + expires_in as i64
}

/// The stored expiry time; 0 (long past) when absent or unreadable.
pub fn stored_expiry(text: Option<&str>) -> (r: i64)
    ensures
        r == match text {
            Some(t) => match parse_i64_spec(t@) {
                Some(v) => v,
                None => 0,
            },
            None => 0,
        },
{
    match text {
        Some(t) => match parse_i64(&chars_of(t)) {
            Some(v) => v,
            None => 0,
        },
        None => 0,
    }
}

/// What a token refresh does.
#[derive(Debug, Clone, PartialEq, Eq)]
pub enum RefreshPlan {
    /// Another task refreshed already: use the token it stored.
    UseCurrent(String),
    /// Trade this refresh token for a new access token.
    Refresh(String),
    /// No refresh token: nobody is signed in.
    NotSignedIn,
}

/// The refresh plan: `stale` is the token the caller just used (if it saw
/// it fail), `current` the token stored now, `refresh_token` the stored
/// refresh token.
pub fn refresh_plan(stale: Option<&str>, current: Option<String>, refresh_token: Option<String>) -> (r: RefreshPlan)
    ensures
        (stale matches Some(st) && current matches Some(c) && c@ != st@) ==> r == RefreshPlan::UseCurrent(
            current->Some_0,
        ),
        !(stale matches Some(st) && current matches Some(c) && c@ != st@) ==> match refresh_token {
            Some(t) => if t@.len() > 0 {
                r == RefreshPlan::Refresh(t)
            } else {
                r == RefreshPlan::NotSignedIn
            },
            None => r == RefreshPlan::NotSignedIn,
        },
{
    if let Some(st) = stale {
        if let Some(c) = &current {
            if !str_eq(c.as_str(), st) {
                return RefreshPlan::UseCurrent(c.clone());
            }
        }
    }
    match refresh_token {
        Some(t) => {
            if chars_of(t.as_str()).len() > 0 {
                RefreshPlan::Refresh(t)
            } else {
                RefreshPlan::NotSignedIn
            }
        },
        None => RefreshPlan::NotSignedIn,
    }
}

/// A stored access token is used until a minute before it expires.
pub fn token_is_fresh(token: &Option<String>, expires_at: i64, now: i64) -> (r: bool)
    requires
        expires_at >= i64::MIN + REFRESH_LEEWAY_SECS,
    ensures
        r == (token matches Some(t) && t@.len() > 0 && expires_at - REFRESH_LEEWAY_SECS > now),
{
    match token {
        Some(t) => chars_of(t.as_str()).len() > 0 && expires_at - REFRESH_LEEWAY_SECS > now,
        None => false,
    }
}

/// A request path made absolute: full URLs as they are, API paths under
/// the API base.
pub open spec fn full_url_spec(path: Seq<char>) -> Seq<char> {
    if starts_with(path, "http"@) {
        path
    } else {
        API_BASE@ + path
    }
}

pub fn full_url(path: &str) -> (r: String)
    ensures
        r@ == full_url_spec(path@),
{
    if starts_with_chars(&chars_of(path), &chars_of("http")) {
        String::from_str(path)
    } else {
        let all = concat_chars(&chars_of(API_BASE), &chars_of(path));
        string_from_chars(all.as_slice())
    }
}

// ---- listing limits --------------------------------------------------------------------------

/// A 400 whose message mentions the limit: the endpoint's cap is lower.
pub open spec fn is_limit_error_spec(e: AppError) -> bool {
    e matches AppError::Spotify { status, message } && status == 400 && has_sub(
        lowercase_of(message@),
        "limit"@,
    )
}

pub fn is_limit_error(e: &AppError) -> (r: bool)
    ensures
        r == is_limit_error_spec(*e),
{
    match e {
        AppError::Spotify { status, message } => *status == 400 && text_has(
            to_lowercase(message.as_str()).as_str(),
            "limit",
        ),
        _ => false,
    }
}

/// The limit a query asked for, 50 when it does not read as a number.
pub fn requested_limit(value: &str) -> (r: u32)
    ensures
        r == match parse_unsigned_spec(value@, u32::MAX as int) {
            Some(v) => v as u32,
            None => 50u32,
        },
{
    match parse_unsigned(&chars_of(value), 4294967295) {
        Some(v) => v as u32,
        None => 50,
    }
}

/// The limits to try after `current` was rejected: 20, 10 and 5 where
/// smaller, then none at all (Spotify's default).
pub open spec fn limit_fallbacks_spec(current: u32) -> Seq<Option<u32>> {
    seq![20u32, 10u32, 5u32].filter(|l: u32| l < current).map_values(|l: u32| Some(l)).push(None)
}

pub fn limit_fallbacks(current: u32) -> (r: Vec<Option<u32>>)
    ensures
        r@ == limit_fallbacks_spec(current),
{
    let mut r: Vec<Option<u32>> = Vec::new();
    if 20 < current {
        r.push(Some(20));
    }
    if 10 < current {
        r.push(Some(10));
    }
    if 5 < current {
        r.push(Some(5));
    }
    r.push(None);
    proof {
        reveal_with_fuel(Seq::filter, 4);
        let s = seq![20u32, 10u32, 5u32];
        assert(s.drop_last() =~= seq![20u32, 10u32]);
        assert(s.drop_last().drop_last() =~= seq![20u32]);
        assert(s.drop_last().drop_last().drop_last() =~= Seq::<u32>::empty());
        assert(r@ =~= limit_fallbacks_spec(current));
    }
    r
}

} // verus!
