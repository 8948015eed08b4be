//! What the UI hears about updates.
use vstd::prelude::*;

verus! {

#[derive(Debug, Clone)]
pub struct UpdateInfo {
    pub version: String,
    pub current_version: String,
    pub notes: Option<String>,
    pub date: Option<String>,
}

#[derive(Debug, Clone)]
pub struct UpdateProgress {
    pub downloaded: u64,
    pub total: Option<u64>,
}

/// The version this build reports to the updater and in the user agent:
/// the package version.
pub fn current_version() -> (r: &'static str)
    ensures
        r@ == "0.1.0"@,
{
    "0.1.0"
}

/// The running download total after a chunk arrives.
pub fn add_chunk(downloaded: u64, chunk: usize) -> (r: u64)
    requires
        downloaded + chunk <= u64::MAX,
    ensures
        r == downloaded + chunk,
{
    downloaded + chunk as u64
}

} // verus!
