use utilify::discovery::parse_playlist_ref;
use utilify::randomizer::{fisher_yates, shadow_context_uri, shadow_name, shuffle_with};

#[test]
fn shuffle_keeps_all_elements() {
    let mut v: Vec<u32> = (0..500).collect();
    fisher_yates(&mut v);
    let mut sorted = v.clone();
    sorted.sort();
    assert_eq!(sorted, (0..500).collect::<Vec<_>>());
}

#[test]
fn shuffle_changes_order() {
    let mut v: Vec<u32> = (0..500).collect();
    fisher_yates(&mut v);
    assert_ne!(v, (0..500).collect::<Vec<_>>());
}

#[test]
fn shuffle_handles_edge_sizes() {
    let mut empty: Vec<u32> = vec![];
    fisher_yates(&mut empty);
    let mut one = vec![1];
    fisher_yates(&mut one);
    assert_eq!(one, vec![1]);
}

#[test]
fn shadow_naming() {
    assert_eq!(shadow_name("Chill"), "Chill-Utilify");
}

#[test]
fn the_shadow_context_is_its_playlist_uri() {
    assert_eq!(shadow_context_uri("abc"), "spotify:playlist:abc");
}

use utilify::models::{Context, LinkedFrom, PlaybackState, Track};
use utilify::randomizer::{decide_session, position_of, prune_session_order, SessionAction, SessionRow};

fn state(context: &str, uri: &str, playing: bool, progress: u64) -> PlaybackState {
    PlaybackState {
        device: None,
        is_playing: playing,
        progress_ms: Some(progress),
        shuffle_state: false,
        repeat_state: None,
        context: Some(Context { uri: context.to_string(), kind: None }),
        item: Some(Track {
            id: None,
            uri: Some(uri.to_string()),
            name: "N".to_string(),
            kind: None,
            is_local: false,
            artists: vec![],
            album: None,
            duration_ms: None,
            linked_from: None,
        }),
        currently_playing_type: None,
        timestamp: 0,
    }
}

fn session(order: &[&str], pin: Option<&str>) -> SessionRow {
    SessionRow {
        shadow_playlist_id: "sh".to_string(),
        source_playlist_id: "src".to_string(),
        source_name: "Src".to_string(),
        shadow_name: "Src-Utilify".to_string(),
        track_count: order.len() as i64,
        last_track_uri: order.last().map(|u| u.to_string()),
        last_shuffled_at: 0,
        reshuffle_count: 0,
        active: true,
        track_order: order.iter().map(|u| u.to_string()).collect(),
        pending_pin: pin.map(|p| p.to_string()),
        missing_tracks: vec![],
    }
}

const SHADOW: &str = "spotify:playlist:sh";

#[test]
fn reaching_the_end_reshuffles_around_the_playing_track() {
    let s = session(&["a", "b", "c"], None);
    let cur = state(SHADOW, "c", true, 5_000);
    assert_eq!(
        decide_session(&s, None, Some(&cur)),
        SessionAction::IncrementalReshuffle { pivot: "c".to_string() }
    );
    let parked = state(SHADOW, "c", false, 0);
    assert_eq!(decide_session(&s, None, Some(&parked)), SessionAction::FullReshuffle);
    let middle = state(SHADOW, "b", true, 5_000);
    assert_eq!(decide_session(&s, None, Some(&middle)), SessionAction::Idle);
}

#[test]
fn a_jump_back_to_the_start_reshuffles_too() {
    let s = session(&["a", "b", "c", "d"], None);
    let prev = state(SHADOW, "c", true, 5_000);
    let cur = state(SHADOW, "a", true, 1_000);
    assert_eq!(
        decide_session(&s, Some(&prev), Some(&cur)),
        SessionAction::IncrementalReshuffle { pivot: "a".to_string() }
    );
}

#[test]
fn idle_sessions_are_left_alone() {
    let tiny = session(&["a"], None);
    assert_eq!(decide_session(&tiny, None, Some(&state(SHADOW, "a", true, 0))), SessionAction::Idle);
    let s = session(&["a", "b"], Some("a"));
    let elsewhere = state("spotify:playlist:other", "a", true, 0);
    assert_eq!(decide_session(&s, None, Some(&elsewhere)), SessionAction::ClearPin);
    assert_eq!(decide_session(&session(&["a", "b"], None), None, None), SessionAction::Idle);
}

#[test]
fn the_hand_over_after_an_incremental_reshuffle_is_confirmed() {
    let s = session(&["p", "x", "y"], Some("p"));
    assert_eq!(decide_session(&s, None, Some(&state(SHADOW, "p", true, 9_000))), SessionAction::Idle);
    assert_eq!(decide_session(&s, None, Some(&state(SHADOW, "p", false, 0))), SessionAction::ClearPinAndRestart);
    assert_eq!(decide_session(&s, None, Some(&state(SHADOW, "x", true, 0))), SessionAction::ClearPin);
    assert_eq!(decide_session(&s, None, Some(&state(SHADOW, "y", true, 0))), SessionAction::ClearPinAndRestart);
}

#[test]
fn a_relinked_track_is_found_by_its_original_uri() {
    let s = session(&["spotify:track:orig", "b"], None);
    let mut cur = state(SHADOW, "spotify:track:relinked", true, 0);
    if let Some(t) = cur.item.as_mut() {
        t.linked_from = Some(LinkedFrom { uri: Some("spotify:track:orig".to_string()) });
    }
    assert_eq!(position_of(&s, &cur), Some(0));
}

#[test]
fn pruning_keeps_the_order_in_sync() {
    let mut s = session(&["a", "b", "c"], None);
    assert!(prune_session_order(&mut s, &vec!["c".to_string()]));
    assert_eq!(s.track_order, vec!["a".to_string(), "b".to_string()]);
    assert_eq!(s.track_count, 2);
    assert_eq!(s.last_track_uri.as_deref(), Some("b"));
    assert!(!prune_session_order(&mut s, &vec!["z".to_string()]));
}

#[test]
fn given_draws_give_the_fisher_yates_swaps() {
    let mut v = vec!['a', 'b', 'c'];
    shuffle_with(&mut v, &[0, 0]);
    assert_eq!(v, vec!['b', 'c', 'a']);
    let mut w = vec![1, 2, 3, 4];
    shuffle_with(&mut w, &[3, 2, 1]);
    assert_eq!(w, vec![1, 2, 3, 4]);
    let mut x = vec![1, 2, 3, 4];
    shuffle_with(&mut x, &[1, 0, 0]);
    assert_eq!(x, vec![4, 3, 1, 2]);
    let mut one = vec![7];
    shuffle_with(&mut one, &[]);
    assert_eq!(one, vec![7]);
}

#[test]
fn a_shadow_context_uri_reads_back_as_its_id() {
    let id = "37i9dQZF1DXcBWIGoYBM5M";
    assert_eq!(parse_playlist_ref(&shadow_context_uri(id)), Some(id.to_string()));
}
