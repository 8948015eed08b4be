//! The error every tool reports. Errors that come from I/O layers carry the
//! text of the underlying failure.
use vstd::prelude::*;
use vstd::string::StringExecFns;

use crate::text::{chars_of, concat_chars, decimal_chars, decimal_spec, string_from_chars};

verus! {

#[derive(Debug)]
pub enum AppError {
    Db(String),
    Http(String),
    Io(String),
    Tauri(String),
    Json(String),
    NoClientId,
    NotAuthenticated,
    AuthExpired,
    QuotaExceeded { what: String },
    QuotaCooldown { until: i64, what: String },
    RateLimited,
    NoActiveDevice,
    PremiumRequired,
    EmptyPlaylist,
    Spotify { status: u16, message: String },
    Auth(String),
    Other(String),
}

/// Machine-readable kind sent to the UI next to the message.
pub open spec fn kind_spec(e: AppError) -> Seq<char> {
    match e {
        AppError::Db(_) => "db"@,
        AppError::Http(_) => "network"@,
        AppError::Io(_) => "io"@,
        AppError::Tauri(_) => "tauri"@,
        AppError::Json(_) => "json"@,
        AppError::NoClientId => "no_client_id"@,
        AppError::NotAuthenticated => "not_authenticated"@,
        AppError::AuthExpired => "auth_expired"@,
        AppError::QuotaExceeded { .. } => "quota_exceeded"@,
        AppError::QuotaCooldown { .. } => "quota_cooldown"@,
        AppError::RateLimited => "rate_limited"@,
        AppError::NoActiveDevice => "no_active_device"@,
        AppError::PremiumRequired => "premium_required"@,
        AppError::EmptyPlaylist => "empty_playlist"@,
        AppError::Spotify { .. } => "spotify"@,
        AppError::Auth(_) => "auth"@,
        AppError::Other(_) => "other"@,
    }
}

/// The user-facing message of each error.
pub open spec fn message_spec(e: AppError) -> Seq<char> {
    match e {
        AppError::Db(m) => "database error: "@ + m@,
        AppError::Http(m) => "network error: "@ + m@,
        AppError::Io(m) => m@,
        AppError::Tauri(m) => m@,
        AppError::Json(m) => "unexpected response from Spotify: "@ + m@,
        AppError::NoClientId => "Spotify Client ID is not configured yet"@,
        AppError::NotAuthenticated => "Not connected to Spotify"@,
        AppError::AuthExpired => "Spotify session expired. Please reconnect."@,
        AppError::QuotaExceeded { .. } =>
            "This Spotify app's API quota is exhausted. Artist lookups are paused for 24 hours."@,
        AppError::QuotaCooldown { .. } =>
            "Spotify's API quota was exceeded earlier; artist lookups are paused until it recovers (see the countdown)."@,
        AppError::RateLimited => "Spotify is rate limiting requests. Wait a minute and try again."@,
        AppError::NoActiveDevice =>
            "No Spotify device is available. Open Spotify on a device, then try again."@,
        AppError::PremiumRequired => "Spotify Premium is required to control playback."@,
        AppError::EmptyPlaylist => "Playlist has no playable tracks."@,
        AppError::Spotify { status, message } => "Spotify API error ("@ + decimal_spec(
            status as nat,
        ) + "): "@ + message@,
        AppError::Auth(m) => m@,
        AppError::Other(m) => m@,
    }
}

impl AppError {
    pub fn kind(&self) -> (r: &'static str)
        ensures
            r@ == kind_spec(*self),
    {
        match self {
            AppError::Db(_) => "db",
            AppError::Http(_) => "network",
            AppError::Io(_) => "io",
            AppError::Tauri(_) => "tauri",
            AppError::Json(_) => "json",
            AppError::NoClientId => "no_client_id",
            AppError::NotAuthenticated => "not_authenticated",
            AppError::AuthExpired => "auth_expired",
            AppError::QuotaExceeded { .. } => "quota_exceeded",
            AppError::QuotaCooldown { .. } => "quota_cooldown",
            AppError::RateLimited => "rate_limited",
            AppError::NoActiveDevice => "no_active_device",
            AppError::PremiumRequired => "premium_required",
            AppError::EmptyPlaylist => "empty_playlist",
            AppError::Spotify { .. } => "spotify",
            AppError::Auth(_) => "auth",
            AppError::Other(_) => "other",
        }
    }

    pub fn other(msg: String) -> (r: AppError)
        ensures
            r == AppError::Other(msg),
    {
        AppError::Other(msg)
    }

    /// The text shown to the user (the error's `Display`).
    pub fn message(&self) -> (r: String)
        ensures
            r@ == message_spec(*self),
    {
        match self {
            AppError::Db(m) => prefixed("database error: ", m),
            AppError::Http(m) => prefixed("network error: ", m),
            AppError::Io(m) => m.clone(),
            AppError::Tauri(m) => m.clone(),
            AppError::Json(m) => prefixed("unexpected response from Spotify: ", m),
            AppError::NoClientId => String::from_str("Spotify Client ID is not configured yet"),
            AppError::NotAuthenticated => String::from_str("Not connected to Spotify"),
            AppError::AuthExpired => String::from_str("Spotify session expired. Please reconnect."),
            AppError::QuotaExceeded { .. } => String::from_str(
                "This Spotify app's API quota is exhausted. Artist lookups are paused for 24 hours.",
            ),
            AppError::QuotaCooldown { .. } => String::from_str(
                "Spotify's API quota was exceeded earlier; artist lookups are paused until it recovers (see the countdown).",
            ),
            AppError::RateLimited => String::from_str(
                "Spotify is rate limiting requests. Wait a minute and try again.",
            ),
            AppError::NoActiveDevice => String::from_str(
                "No Spotify device is available. Open Spotify on a device, then try again.",
            ),
            AppError::PremiumRequired => String::from_str(
                "Spotify Premium is required to control playback.",
            ),
            AppError::EmptyPlaylist => String::from_str("Playlist has no playable tracks."),
            AppError::Spotify { status, message } => {
                let head = concat_chars(
                    &chars_of("Spotify API error ("),
                    &decimal_chars(*status as u64),
                );
                let mid = concat_chars(&head, &chars_of("): "));
                let all = concat_chars(&mid, &chars_of(message.as_str()));
                string_from_chars(all.as_slice())
            },
            AppError::Auth(m) => m.clone(),
            AppError::Other(m) => m.clone(),
        }
    }
}

fn prefixed(prefix: &str, m: &String) -> (r: String)
    ensures
        r@ == prefix@ + m@,
{
    let all = concat_chars(&chars_of(prefix), &chars_of(m.as_str()));
    string_from_chars(all.as_slice())
}

} // verus!
