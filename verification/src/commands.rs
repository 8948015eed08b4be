//! The rules behind the app's commands and settings: what a Client ID looks
//! like, which links may be opened, how a transport command reads, how the
//! stored switches read, and when connectivity flips.
use vstd::prelude::*;
use vstd::string::StringExecFns;

use crate::error::AppError;
use crate::models::str_eq;
use crate::text::{
    chars_of, concat_chars, is_ascii_hexdigit, is_ascii_hexdigit_spec, parse_unsigned, parse_unsigned_spec, starts_with,
    starts_with_chars, string_from_chars, trim, trim_chars,
};

verus! {

#[derive(Debug, Clone)]
pub struct SetupState {
    pub has_client_id: bool,
    pub is_authenticated: bool,
    pub user_display_name: Option<String>,
    pub user_product: Option<String>,
    pub redirect_uri: String,
}

#[derive(Debug, Clone)]
pub struct Settings {
    pub client_id: Option<String>,
    pub minimize_to_tray: bool,
    pub redirect_uri: String,
    pub user_display_name: Option<String>,
    pub user_id: Option<String>,
    pub db_path: String,
}

// ---- the Client ID -----------------------------------------------------------------------

/// What saving a Client ID does.
#[derive(Debug)]
pub enum ClientIdChange {
    /// Empty input: forget the Client ID and the session.
    Clear,
    /// Store this Client ID; the tokens go too when it differs from the
    /// stored one (they belong to the old app).
    Store { client_id: String, drop_tokens: bool },
}

pub open spec fn is_client_id(s: Seq<char>) -> bool {
    s.len() == 32 && forall|i: int| 0 <= i < s.len() ==> is_ascii_hexdigit_spec(#[trigger] s[i])
}

pub fn client_id_change(input: &str, current: Option<&str>) -> (r: Result<ClientIdChange, AppError>)
    ensures
        trim(input@).len() == 0 ==> r matches Ok(ClientIdChange::Clear),
        trim(input@).len() > 0 && !is_client_id(trim(input@)) ==> (r matches Err(AppError::Other(m)) && m@
            == "A Spotify Client ID is 32 hexadecimal characters."@),
        trim(input@).len() > 0 && is_client_id(trim(input@)) ==> (r matches Ok(
            ClientIdChange::Store { client_id, drop_tokens },
        ) && client_id@ == trim(input@) && drop_tokens == !(current matches Some(c) && c@ == trim(input@))),
{
    let t = trim_chars(&chars_of(input));
    if t.len() == 0 {
        return Ok(ClientIdChange::Clear);
    }
    let mut ok = t.len() == 32;
    let mut k: usize = 0;
    while ok && k < t.len()
        invariant
            k <= t@.len(),
            ok ==> t@.len() == 32,
            ok ==> forall|i: int| 0 <= i < k ==> is_ascii_hexdigit_spec(#[trigger] t@[i]),
            !ok ==> !is_client_id(t@),
        decreases t@.len() - k,
    {
        if !is_ascii_hexdigit(t[k]) {
            ok = false;
        }
        k += 1;
    }
    if !ok {
        return Err(AppError::Other(String::from_str("A Spotify Client ID is 32 hexadecimal characters.")));
    }
    let id = string_from_chars(t.as_slice());
    let same = match current {
        Some(c) => str_eq(c, id.as_str()),
        None => false,
    };
    Ok(ClientIdChange::Store { client_id: id, drop_tokens: !same })
}

/// The stored Client ID as shown in Settings: absent when empty.
pub fn shown_client_id(stored: Option<String>) -> (r: Option<String>)
    ensures
        r == match stored {
            Some(s) => if s@.len() > 0 {
                Some(s)
            } else {
                None::<String>
            },
            None => None::<String>,
        },
{
    match stored {
        Some(s) => if chars_of(s.as_str()).len() > 0 {
            Some(s)
        } else {
            None
        },
        None => None,
    }
}

/// Only web links are handed to the browser.
pub fn check_external_url(url: &str) -> (r: Result<(), AppError>)
    ensures
        r is Ok <==> starts_with(url@, "https://"@) || starts_with(url@, "http://"@),
        r matches Err(e) ==> (e matches AppError::Other(m) && m@ == "Only http(s) links can be opened."@),
{
    let c = chars_of(url);
    if !(starts_with_chars(&c, &chars_of("https://")) || starts_with_chars(&c, &chars_of("http://"))) {
        return Err(AppError::Other(String::from_str("Only http(s) links can be opened.")));
    }
    Ok(())
}

// ---- switches ---------------------------------------------------------------------------------

/// "Minimize to tray" is on unless stored as "0" or "false".
pub fn minimize_to_tray_flag(stored: Option<&str>) -> (r: bool)
    ensures
        r == match stored {
            Some(v) => v@ != "0"@ && v@ != "false"@,
            None => true,
        },
{
    match stored {
        Some(v) => !str_eq(v, "0") && !str_eq(v, "false"),
        None => true,
    }
}

/// Update checks are on only when stored as "1".
pub fn update_check_flag(stored: Option<&str>) -> (r: bool)
    ensures
        r == (stored matches Some(v) && v@ == "1"@),
{
    match stored {
        Some(v) => str_eq(v, "1"),
        None => false,
    }
}

/// How a switch is stored.
pub fn flag_text(enabled: bool) -> (r: &'static str)
    ensures
        r@ == (if enabled { "1"@ } else { "0"@ }),
{
    if enabled {
        "1"
    } else {
        "0"
    }
}

// ---- the Now Playing bar ---------------------------------------------------------------------

#[derive(Debug, Clone, PartialEq, Eq)]
pub enum PlayerCommand {
    Play,
    Pause,
    Next,
    Previous,
    Seek(u64),
    Shuffle(bool),
    Repeat(String),
}

pub open spec fn player_command_ok(action: Seq<char>, value: Option<Seq<char>>, r: Result<PlayerCommand, AppError>) -> bool {
    if action == "play"@ {
        r matches Ok(PlayerCommand::Play)
    } else if action == "pause"@ {
        r matches Ok(PlayerCommand::Pause)
    } else if action == "next"@ {
        r matches Ok(PlayerCommand::Next)
    } else if action == "previous"@ {
        r matches Ok(PlayerCommand::Previous)
    } else if action == "seek"@ {
        match value {
            Some(v) => match parse_unsigned_spec(v, u64::MAX as int) {
                Some(ms) => r matches Ok(PlayerCommand::Seek(x)) && x == ms,
                None => r matches Err(AppError::Other(m)) && m@ == "seek needs a position in ms"@,
            },
            None => r matches Err(AppError::Other(m)) && m@ == "seek needs a position in ms"@,
        }
    } else if action == "shuffle"@ {
        r matches Ok(PlayerCommand::Shuffle(on)) && on == (value == Some("true"@))
    } else if action == "repeat"@ {
        let mode = match value {
            Some(v) => v,
            None => "off"@,
        };
        if mode == "off"@ || mode == "context"@ || mode == "track"@ {
            r matches Ok(PlayerCommand::Repeat(x)) && x@ == mode
        } else {
            r matches Err(AppError::Other(m)) && m@ == "repeat must be off, context or track"@
        }
    } else {
        r matches Err(AppError::Other(m)) && m@ == "unknown player action '"@ + action + "'"@
    }
}

/// Read a transport command and its value.
pub fn parse_player_command(action: &str, value: Option<&str>) -> (r: Result<PlayerCommand, AppError>)
    ensures
        player_command_ok(
            action@,
            match value {
                Some(v) => Some(v@),
                None => None,
            },
            r,
        ),
{
    if str_eq(action, "play") {
        return Ok(PlayerCommand::Play);
    }
    if str_eq(action, "pause") {
        return Ok(PlayerCommand::Pause);
    }
    if str_eq(action, "next") {
        return Ok(PlayerCommand::Next);
    }
    if str_eq(action, "previous") {
        return Ok(PlayerCommand::Previous);
    }
    if str_eq(action, "seek") {
        let ms = match value {
            Some(v) => parse_unsigned(&chars_of(v), u64::MAX),
            None => None,
        };
        return match ms {
            Some(ms) => Ok(PlayerCommand::Seek(ms)),
            None => Err(AppError::Other(String::from_str("seek needs a position in ms"))),
        };
    }
    if str_eq(action, "shuffle") {
        let on = match value {
            Some(v) => str_eq(v, "true"),
            None => false,
        };
        return Ok(PlayerCommand::Shuffle(on));
    }
    if str_eq(action, "repeat") {
        let mode = match value {
            Some(v) => v,
            None => "off",
        };
        if str_eq(mode, "off") || str_eq(mode, "context") || str_eq(mode, "track") {
            return Ok(PlayerCommand::Repeat(String::from_str(mode)));
        }
        return Err(AppError::Other(String::from_str("repeat must be off, context or track")));
    }
    let mut m = chars_of("unknown player action '");
    let a = chars_of(action);
    let ghost head = m@;
    let mut k: usize = 0;
    while k < a.len()
        invariant
            k <= a@.len(),
            m@ == head + a@.subrange(0, k as int),
        decreases a@.len() - k,
    {
        m.push(a[k]);
        k += 1;
        assert(m@ =~= head + a@.subrange(0, k as int));
    }
    assert(a@.subrange(0, a@.len() as int) =~= a@);
    let all = concat_chars(&m, &chars_of("'"));
    Err(AppError::Other(string_from_chars(all.as_slice())))
}

// ---- connectivity ------------------------------------------------------------------------------

/// Whether Spotify answers the poll; `since` is when it stopped.
#[derive(Debug, Clone)]
pub struct Connectivity {
    pub online: bool,
    pub since: Option<i64>,
}

/// Record what a poll found. `offline_since` is when polls started failing,
/// if they are failing. The new record and, when the state flipped, whether
/// it is now online, so the UI hears of each change once.
pub open spec fn online_step(offline_since: Option<i64>, online: bool, now: i64) -> (Option<i64>, Option<bool>) {
    if online && offline_since is Some {
        (None, Some(true))
    } else if !online && offline_since is None {
        (Some(now), Some(false))
    } else {
        (offline_since, None)
    }
}

pub fn set_online(offline_since: Option<i64>, online: bool, now: i64) -> (r: (Option<i64>, Option<bool>))
    ensures
        r == online_step(offline_since, online, now),
{
    match (online, offline_since) {
        (true, Some(_)) => (None, Some(true)),
        (false, None) => (Some(now), Some(false)),
        _ => (offline_since, None),
    }
}

/// Each connectivity change is reported once: after a report, the same
/// report again changes nothing and says nothing, and the record says
/// offline exactly when the last report did.
pub proof fn connectivity_reports_each_change_once(offline_since: Option<i64>, online: bool, now: i64, later: i64)
    ensures
        ({
            let first = online_step(offline_since, online, now);
            let second = online_step(first.0, online, later);
            &&& second.1 is None
            &&& second.0 == first.0
            &&& (first.0 is None) == online
        }),
{
}

/// The event for a connectivity change.
pub fn connectivity_event(online: bool, now: i64) -> (r: Connectivity)
    ensures
        r.online == online,
        r.since == (if online { None::<i64> } else { Some(now) }),
{
    Connectivity { online, since: if online { None } else { Some(now) } }
}

} // verus!
