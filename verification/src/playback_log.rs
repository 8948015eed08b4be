//! The playback log: one record per play, and when a play counts as a skip.
use vstd::prelude::*;

verus! {

pub struct NewPlay<'a> {
    pub track_uri: &'a str,
    pub track_name: Option<&'a str>,
    pub artist_name: Option<&'a str>,
    pub artist_id: Option<&'a str>,
    pub album_name: Option<&'a str>,
    pub context_uri: Option<&'a str>,
    pub started_at: i64,
    pub duration_ms: Option<i64>,
    pub listened_ms: i64,
}

/// A play heard for less than the threshold is a skip.
pub fn counts_as_skip(listened_ms: i64, threshold_ms: i64) -> (r: bool)
    ensures
        r == (listened_ms < threshold_ms),
{
    listened_ms < threshold_ms
}

} // verus!
