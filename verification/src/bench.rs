//! Bench: take a track out of a playlist for a while and bring it back.
//! What a bench request must satisfy, when it returns, where it goes back,
//! and which tracked shadow playlists must drop it too.
use vstd::prelude::*;
use vstd::string::StringExecFns;

use crate::error::{message_spec, AppError};
use crate::models::{str_eq, str_starts_with};
use crate::randomizer::{prune_session_order, shadow_context_uri, shadow_context_uri_spec, views, without, SessionRow};
use crate::text::{chars_of, concat_chars, starts_with, string_from_chars};

verus! {

pub const MIN_DURATION_SECS: i64 = 60;

pub const MAX_DURATION_SECS: i64 = 31622400;

#[derive(Debug, Clone)]
pub struct BenchRow {
    pub id: i64,
    pub track_uri: String,
    pub track_name: Option<String>,
    pub artist_name: Option<String>,
    pub playlist_id: String,
    pub playlist_name: Option<String>,
    pub original_position: Option<i64>,
    pub benched_at: i64,
    pub restore_at: i64,
    pub restored_at: Option<i64>,
}

pub struct NewBench<'a> {
    pub track_uri: &'a str,
    pub track_name: Option<&'a str>,
    pub artist_name: Option<&'a str>,
    pub playlist_id: &'a str,
    pub playlist_name: Option<&'a str>,
    pub original_position: Option<i64>,
    pub benched_at: i64,
    pub restore_at: i64,
}

pub struct BenchRequest<'a> {
    pub playlist_id: &'a str,
    pub track_uri: &'a str,
    pub track_name: Option<&'a str>,
    pub artist_name: Option<&'a str>,
    pub position: Option<i64>,
    pub duration_secs: i64,
}

/// A bench lasts between a minute and a year and takes Spotify tracks only;
/// a track is benched from a playlist once at a time.
pub fn check_bench_request(req: &BenchRequest, already_benched: bool) -> (r: Result<(), AppError>)
    ensures
        r is Ok <==> MIN_DURATION_SECS <= req.duration_secs <= MAX_DURATION_SECS && starts_with(
            req.track_uri@,
            "spotify:track:"@,
        ) && !already_benched,
        !(MIN_DURATION_SECS <= req.duration_secs <= MAX_DURATION_SECS) ==> (r matches Err(AppError::Other(m))
            && m@ == "Bench duration must be between 1 minute and 1 year."@),
        MIN_DURATION_SECS <= req.duration_secs <= MAX_DURATION_SECS && !starts_with(
            req.track_uri@,
            "spotify:track:"@,
        ) ==> (r matches Err(AppError::Other(m)) && m@ == "Only Spotify tracks can be benched."@),
        MIN_DURATION_SECS <= req.duration_secs <= MAX_DURATION_SECS && starts_with(
            req.track_uri@,
            "spotify:track:"@,
        ) && already_benched ==> (r matches Err(AppError::Other(m)) && m@
            == "That track is already benched from this playlist."@),
{
    if !(MIN_DURATION_SECS <= req.duration_secs && req.duration_secs <= MAX_DURATION_SECS) {
        return Err(AppError::Other(String::from_str("Bench duration must be between 1 minute and 1 year.")));
    }
    if !str_starts_with(req.track_uri, "spotify:track:") {
        return Err(AppError::Other(String::from_str("Only Spotify tracks can be benched.")));
    }
    if already_benched {
        return Err(AppError::Other(String::from_str("That track is already benched from this playlist.")));
    }
    Ok(())
}

/// When a bench made at `benched_at` ends.
pub fn restore_time(benched_at: i64, duration_secs: i64) -> (r: i64)
    requires
        MIN_DURATION_SECS <= duration_secs <= MAX_DURATION_SECS,
        benched_at <= i64::MAX - MAX_DURATION_SECS,
    ensures
        r == benched_at + duration_secs,
{
    benched_at + duration_secs
}

/// The record of a new bench.
pub fn new_bench<'a>(req: &BenchRequest<'a>, playlist_name: Option<&'a str>, benched_at: i64) -> (r: NewBench<'a>)
    requires
        MIN_DURATION_SECS <= req.duration_secs <= MAX_DURATION_SECS,
        benched_at <= i64::MAX - MAX_DURATION_SECS,
    ensures
        r.track_uri == req.track_uri,
        r.track_name == req.track_name,
        r.artist_name == req.artist_name,
        r.playlist_id == req.playlist_id,
        r.playlist_name == playlist_name,
        r.original_position == req.position,
        r.benched_at == benched_at,
        r.restore_at == benched_at + req.duration_secs,
{
    NewBench {
        track_uri: req.track_uri,
        track_name: req.track_name,
        artist_name: req.artist_name,
        playlist_id: req.playlist_id,
        playlist_name,
        original_position: req.position,
        benched_at,
        restore_at: restore_time(benched_at, req.duration_secs),
    }
}

/// The shadow context URI of a playlist.
pub fn shadow_uri_for(playlist_id: &str) -> (r: String)
    ensures
        r@ == shadow_context_uri_spec(playlist_id@),
{
    shadow_context_uri(playlist_id)
}

/// Where a restored track goes back: its old position when it had one.
pub fn restore_position(original: Option<i64>) -> (r: Option<usize>)
    requires
        original matches Some(p) ==> p <= usize::MAX,
    ensures
        r == match original {
            Some(p) => if p >= 0 {
                Some(p as usize)
            } else {
                None::<usize>
            },
            None => None::<usize>,
        },
{
    match original {
        Some(p) => if p >= 0 {
            Some(p as usize)
        } else {
            None
        },
        None => None,
    }
}

/// What follows a failed re-insertion.
#[derive(Debug, Clone, Copy, PartialEq, Eq, Structural)]
pub enum RestoreRetry {
    /// The position no longer exists (the playlist shrank): append instead.
    Append,
    /// The playlist is gone: nothing to restore into.
    Gone,
    /// Report the error.
    Fail,
}

pub fn restore_retry(error: &AppError, had_position: bool) -> (r: RestoreRetry)
    ensures
        r == match *error {
            AppError::Spotify { status, .. } => if (status == 400 || status == 403) && had_position {
                RestoreRetry::Append
            } else if status == 404 {
                RestoreRetry::Gone
            } else {
                RestoreRetry::Fail
            },
            _ => RestoreRetry::Fail,
        },
{
    match error {
        AppError::Spotify { status, .. } => if (*status == 400 || *status == 403) && had_position {
            RestoreRetry::Append
        } else if *status == 404 {
            RestoreRetry::Gone
        } else {
            RestoreRetry::Fail
        },
        _ => RestoreRetry::Fail,
    }
}

/// The tracked shadows that must drop a track benched from `playlist_id`:
/// the playlist itself when it is an active shadow, then every active
/// shadow fed by it.
pub open spec fn shadows_to_prune_spec(
    own: Option<SessionRow>,
    active: Seq<SessionRow>,
    playlist_id: Seq<char>,
) -> Seq<SessionRow> {
    let first: Seq<SessionRow> = match own {
        Some(s) => if s.active {
            seq![s]
        } else {
            Seq::empty()
        },
        None => Seq::empty(),
    };
    first + active.filter(
        |s: SessionRow| s.source_playlist_id@ == playlist_id && s.shadow_playlist_id@ != playlist_id,
    )
}

pub fn shadows_to_prune(own: Option<SessionRow>, active: Vec<SessionRow>, playlist_id: &str) -> (r: Vec<SessionRow>)
    ensures
        r@ == shadows_to_prune_spec(own, active@, playlist_id@),
{
    let mut out: Vec<SessionRow> = Vec::new();
    match own {
        Some(s) => if s.active {
            out.push(s);
        },
        None => {},
    }
    let ghost head = out@;
    let ghost all = active@;
    for s in it: active.into_iter()
        invariant
            it.seq() == all,
            out@ == head + all.subrange(0, it.index() as int).filter(
                |s: SessionRow| s.source_playlist_id@ == playlist_id@ && s.shadow_playlist_id@ != playlist_id@,
            ),
    {
        let ghost k = it.index();
        let ghost pre = all.subrange(0, k as int);
        let ghost before = out@;
        assert(all.subrange(0, k + 1).drop_last() =~= pre);
        assert(all.subrange(0, k + 1).last() == s);
        proof {
            reveal_with_fuel(Seq::filter, 1);
        }
        if str_eq(s.source_playlist_id.as_str(), playlist_id) && !str_eq(
            s.shadow_playlist_id.as_str(),
            playlist_id,
        ) {
            out.push(s);
            assert(out@ =~= before.push(all[k as int]));
        }
    }
    assert(all.subrange(0, all.len() as int) =~= all);
    out
}

/// A shadow session after tracks were benched from it: they leave the
/// stored order, and the count and the last track are set from the order.
pub fn drop_from_session(session: &mut SessionRow, uris: &Vec<String>)
    requires
        old(session).track_order@.len() <= i64::MAX,
    ensures
        views(final(session).track_order@) == without(views(old(session).track_order@), uris@),
        final(session).track_count == final(session).track_order@.len() as i64,
        final(session).last_track_uri is None <==> final(session).track_order@.len() == 0,
        final(session).track_order@.len() > 0 ==> final(session).last_track_uri->Some_0@
            == final(session).track_order@.last()@,
        final(session).shadow_playlist_id == old(session).shadow_playlist_id,
        final(session).source_playlist_id == old(session).source_playlist_id,
        final(session).active == old(session).active,
        final(session).pending_pin == old(session).pending_pin,
{
    prune_session_order(session, uris);
    let n = session.track_order.len();
    session.track_count = n as i64;
    session.last_track_uri = if n > 0 {
        Some(session.track_order[n - 1].clone())
    } else {
        None
    };
}


/// A bench entry can be ended early once: it must exist and not be back yet.
pub fn check_unbench(row: Option<BenchRow>) -> (r: Result<BenchRow, AppError>)
    ensures
        row is None ==> (r matches Err(AppError::Other(m)) && m@ == "Unknown bench entry."@),
        row matches Some(b) ==> (b.restored_at is Some ==> (r matches Err(AppError::Other(m)) && m@
            == "That track has already been restored."@)),
        row matches Some(b) ==> (b.restored_at is None ==> r == Ok::<BenchRow, AppError>(b)),
{
    match row {
        None => Err(AppError::Other(String::from_str("Unknown bench entry."))),
        Some(b) => {
            if b.restored_at.is_some() {
                Err(AppError::Other(String::from_str("That track has already been restored.")))
            } else {
                Ok(b)
            }
        },
    }
}

pub open spec fn or_text(o: Option<String>, fallback: Seq<char>) -> Seq<char> {
    match o {
        Some(s) => s@,
        None => fallback,
    }
}

/// What the user is told when a due track could not be put back.
pub fn restore_failure(row: &BenchRow, error: &AppError) -> (r: String)
    ensures
        r@ == "Could not restore \""@ + or_text(row.track_name, row.track_uri@) + "\" to \""@ + or_text(
            row.playlist_name,
            row.playlist_id@,
        ) + "\": "@ + message_spec(*error),
{
    let track = match &row.track_name {
        Some(n) => chars_of(n.as_str()),
        None => chars_of(row.track_uri.as_str()),
    };
    let playlist = match &row.playlist_name {
        Some(n) => chars_of(n.as_str()),
        None => chars_of(row.playlist_id.as_str()),
    };
    let a = concat_chars(&chars_of("Could not restore \""), &track);
    let b = concat_chars(&a, &chars_of("\" to \""));
    let c = concat_chars(&b, &playlist);
    let d = concat_chars(&c, &chars_of("\": "));
    let e = concat_chars(&d, &chars_of(error.message().as_str()));
    string_from_chars(e.as_slice())
}

} // verus!
