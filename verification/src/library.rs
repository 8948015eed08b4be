//! The local playlist cache: rows made from a `/me/playlists` listing, and
//! the flags derived when rows are read back.
use vstd::prelude::*;

use crate::models::{str_eq, SimplifiedPlaylist};
use crate::randomizer::SHADOW_SUFFIX;
use crate::text::{chars_of, ends_with, ends_with_chars};

verus! {

#[derive(Debug, Clone)]
pub struct PlaylistRow {
    pub id: String,
    pub name: String,
    pub owner_id: Option<String>,
    pub owner_name: Option<String>,
    pub track_count: i64,
    pub snapshot_id: Option<String>,
    pub image_url: Option<String>,
    pub uri: Option<String>,
    pub is_public: Option<bool>,
    pub is_collaborative: Option<bool>,
    pub position: i64,
    pub updated_at: i64,
    /// Derived: name ends with `-Utilify`.
    pub is_shadow: bool,
    /// Derived: owned by the signed-in user.
    pub is_own: bool,
}

fn clone_opt(o: &Option<String>) -> (r: Option<String>)
    ensures
        r == *o,
{
    match o {
        Some(s) => Some(s.clone()),
        None => None,
    }
}

/// The cache row of the `position`-th playlist of a listing taken at `now`.
pub fn playlist_row(p: &SimplifiedPlaylist, position: usize, now: i64) -> (r: PlaylistRow)
    ensures
        r.id == p.id,
        r.name == p.name,
        r.owner_id == match p.owner {
            Some(o) => o.id,
            None => None::<String>,
        },
        r.owner_name == match p.owner {
            Some(o) => o.display_name,
            None => None::<String>,
        },
        r.track_count == match p.tracks {
            Some(c) => c.total as i64,
            None => 0i64,
        },
        r.snapshot_id == p.snapshot_id,
        r.uri == p.uri,
        r.is_public == p.public,
        r.is_collaborative == p.collaborative,
        r.position == position as i64,
        r.updated_at == now,
        !r.is_shadow && !r.is_own,
        p.images matches Some(imgs) && imgs@.len() > 0 <==> r.image_url is Some,
{
    let owner_id = match &p.owner {
        Some(o) => clone_opt(&o.id),
        None => None,
    };
    let owner_name = match &p.owner {
        Some(o) => clone_opt(&o.display_name),
        None => None,
    };
    PlaylistRow {
        id: p.id.clone(),
        name: p.name.clone(),
        owner_id,
        owner_name,
        track_count: p.track_count() as i64,
        snapshot_id: clone_opt(&p.snapshot_id),
        image_url: p.thumbnail(),
        uri: clone_opt(&p.uri),
        is_public: p.public,
        is_collaborative: p.collaborative,
        position: position as i64,
        updated_at: now,
        is_shadow: false,
        is_own: false,
    }
}

/// A stored row as read back for `current_user`: a shadow when its name
/// ends with the shadow suffix, the user's own when they own it.
pub fn with_flags(row: PlaylistRow, current_user: Option<&str>) -> (r: PlaylistRow)
    ensures
        r.is_shadow == ends_with(row.name@, "-Utilify"@),
        r.is_own == (current_user matches Some(u) && row.owner_id matches Some(o) && o@ == u@),
        r.id == row.id && r.name == row.name && r.owner_id == row.owner_id && r.owner_name == row.owner_name,
        r.track_count == row.track_count && r.snapshot_id == row.snapshot_id && r.image_url == row.image_url,
        r.uri == row.uri && r.is_public == row.is_public && r.is_collaborative == row.is_collaborative,
        r.position == row.position && r.updated_at == row.updated_at,
{
    let is_shadow = ends_with_chars(&chars_of(row.name.as_str()), &chars_of(SHADOW_SUFFIX));
    let is_own = match (current_user, &row.owner_id) {
        (Some(u), Some(o)) => str_eq(o.as_str(), u),
        _ => false,
    };
    PlaylistRow { is_shadow, is_own, ..row }
}

} // verus!
