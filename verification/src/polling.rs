//! The shared 30-second playback poll: whether it asks Spotify at all, and
//! what the answer leads to.
use vstd::prelude::*;

use crate::error::AppError;

verus! {

/// Seconds between polls; never faster, to stay inside Spotify's rate limits.
pub const POLL_INTERVAL_SECS: u64 = 30;

/// A poll asks Spotify only while signed in and while the player family is
/// not paused: a catalog pause must not stop bench restores, and a request
/// to a paused family would only spend quota on a refusal.
pub fn should_poll(authenticated: bool, player_paused: bool) -> (r: bool)
    ensures
        r == (authenticated && !player_paused),
{
    authenticated && !player_paused
}

/// What one fetch of the player state leads to.
#[derive(Debug, Clone, Copy, PartialEq, Eq, Structural)]
pub enum PollStep {
    /// Spotify answered: mark online, hand the state to the randomizer,
    /// then run the scheduled work.
    Answered,
    /// The session is over: tell the UI, skip everything else.
    SessionExpired,
    /// No connection: mark offline, skip the scheduled work.
    Offline,
    /// The quota is still gone: skip quietly.
    QuotaWait,
    /// Another failure: note it, still run the scheduled work.
    Failed,
}

pub open spec fn poll_step_spec(error: Option<AppError>) -> PollStep {
    match error {
        None => PollStep::Answered,
        Some(AppError::AuthExpired) | Some(AppError::NotAuthenticated) => PollStep::SessionExpired,
        Some(AppError::Http(_)) => PollStep::Offline,
        Some(AppError::QuotaExceeded { .. }) | Some(AppError::QuotaCooldown { .. }) => PollStep::QuotaWait,
        Some(_) => PollStep::Failed,
    }
}

/// The step for a fetch that succeeded (`None`) or failed with `error`.
pub fn poll_step(error: Option<&AppError>) -> (r: PollStep)
    ensures
        r == poll_step_spec(
            match error {
                Some(e) => Some(*e),
                None => None,
            },
        ),
{
    match error {
        None => PollStep::Answered,
        Some(AppError::AuthExpired) | Some(AppError::NotAuthenticated) => PollStep::SessionExpired,
        Some(AppError::Http(_)) => PollStep::Offline,
        Some(AppError::QuotaExceeded { .. }) | Some(AppError::QuotaCooldown { .. }) => PollStep::QuotaWait,
        Some(_) => PollStep::Failed,
    }
}

/// Whether the scheduled work (bench restores) runs after the step: only
/// when Spotify answered or failed in a way that says nothing of the
/// connection or the session.
pub fn runs_scheduled_work(step: PollStep) -> (r: bool)
    ensures
        r == (step is Answered || step is Failed),
{
    match step {
        PollStep::Answered | PollStep::Failed => true,
        _ => false,
    }
}

} // verus!
