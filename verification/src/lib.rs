//! Utilify's playlist tools as a verified library: matching and
//! normalisation of titles, reorder planning for the playlist editor,
//! discography selection, the shadow-playlist randomizer's decisions,
//! export/import text handling, quota bookkeeping and stats folding.
pub mod auth;
pub mod bench;
pub mod client;
pub mod commands;
pub mod diff;
pub mod discography;
pub mod discovery;
pub mod duplicates;
pub mod editor;
pub mod error;
pub mod export_import;
pub mod generated;
pub mod genre;
pub mod library;
pub mod matching;
pub mod merge;
pub mod models;
pub mod order;
pub mod playback;
pub mod playback_log;
pub mod playlists;
pub mod polling;
pub mod randomizer;
pub mod shadow;
pub mod sorting;
pub mod stats;
pub mod text;
pub mod tracks;
pub mod updater;

use vstd::prelude::*;

verus! {

} // verus!
