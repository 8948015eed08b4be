use utilify::client::{
    backoff, blocked_by_pause, decide_response, full_url, is_limit_error, is_probe, limit_fallbacks, network_retry,
    requested_limit, token_is_fresh, HttpMethod, QuotaScope, QuotaStatus, ResponseAction, API_BASE,
    QUOTA_RETRY_SECS,
};
use utilify::client::{has_session, refresh_plan, retry_after_secs, stored_client_id, stored_expiry, token_expiry, RefreshPlan};
use utilify::error::AppError;
use utilify::polling::{poll_step, runs_scheduled_work, should_poll, PollStep};
use utilify::models::{ErrorBody, ErrorEnvelope};

const NOW: i64 = 1_700_000_000;

fn envelope(reason: Option<&str>, message: Option<&str>) -> Option<ErrorEnvelope> {
    Some(ErrorEnvelope {
        error: ErrorBody { status: None, message: message.map(|m| m.to_string()), reason: reason.map(|r| r.to_string()) },
    })
}

#[test]
fn urls_land_in_the_right_family() {
    let f = |p: &str| QuotaScope::of_url(&format!("{API_BASE}{p}"));
    assert_eq!(f("/artists/abc/albums"), QuotaScope::Catalog);
    assert_eq!(f("/albums/abc/tracks"), QuotaScope::Catalog);
    assert_eq!(f("/search?q=x"), QuotaScope::Catalog);
    assert_eq!(f("/playlists/abc/items"), QuotaScope::Playlists);
    assert_eq!(f("/me/playlists"), QuotaScope::Playlists);
    assert_eq!(f("/me/tracks"), QuotaScope::Playlists);
    assert_eq!(f("/me/player"), QuotaScope::Player);
    assert_eq!(f("/me/player/play"), QuotaScope::Player);
    assert_eq!(f("/something/new"), QuotaScope::Playlists);
}

#[test]
fn pausing_one_family_leaves_the_others_alone() {
    let s = QuotaStatus::cleared().with_pause(QuotaScope::Catalog, NOW);
    assert!(s.is_paused(QuotaScope::Catalog));
    assert!(!s.is_paused(QuotaScope::Playlists));
    assert!(!s.is_paused(QuotaScope::Player));

    let s = s.with_pause(QuotaScope::Playlists, NOW);
    assert!(s.is_paused(QuotaScope::Catalog));
    assert!(s.is_paused(QuotaScope::Playlists));
    assert!(!s.is_paused(QuotaScope::Player));
}

#[test]
fn a_success_clears_only_its_own_family() {
    let s = QuotaStatus::cleared().with_pause(QuotaScope::Catalog, NOW).with_pause(QuotaScope::Playlists, NOW);
    let (s, was_paused) = s.without(QuotaScope::Catalog, NOW);
    assert!(was_paused);
    assert!(!s.is_paused(QuotaScope::Catalog));
    assert!(s.is_paused(QuotaScope::Playlists));
}

#[test]
fn a_pause_lapses_so_the_next_attempt_goes_through() {
    let s = QuotaStatus::cleared().with_pause(QuotaScope::Catalog, NOW);
    let until = s.until(QuotaScope::Catalog).unwrap();
    assert!(until > NOW && until <= NOW + QUOTA_RETRY_SECS);

    let rewound = QuotaStatus { scopes: vec![(QuotaScope::Catalog.key().to_string(), NOW - 1)] };
    assert!(!rewound.active_at(NOW).is_paused(QuotaScope::Catalog));
    assert!(rewound.is_paused(QuotaScope::Catalog));
}

#[test]
fn clearing_removes_every_pause() {
    let s = QuotaStatus::cleared().with_pause(QuotaScope::Catalog, NOW).with_pause(QuotaScope::Player, NOW);
    assert_eq!(s.scopes.len(), 2);
    let s = QuotaStatus::cleared();
    assert!(s.scopes.is_empty());
    assert!(QuotaStatus::default().scopes.is_empty());
}

#[test]
fn a_paused_family_blocks_all_but_the_probe() {
    let s = QuotaStatus::cleared().with_pause(QuotaScope::Catalog, NOW).with_pause(QuotaScope::Player, NOW);
    match blocked_by_pause(HttpMethod::Get, &format!("{API_BASE}/artists/abc/albums"), &s) {
        Some(AppError::QuotaCooldown { until, what }) => {
            assert_eq!(until, NOW + QUOTA_RETRY_SECS);
            assert_eq!(what, "artist and album lookups");
        }
        other => panic!("unexpected {other:?}"),
    }
    let poll = format!("{API_BASE}/me/player");
    assert!(is_probe(HttpMethod::Get, &poll));
    assert!(!is_probe(HttpMethod::Put, &poll));
    assert!(blocked_by_pause(HttpMethod::Get, &poll, &s).is_none());
    assert!(blocked_by_pause(HttpMethod::Put, &format!("{API_BASE}/me/player/play"), &s).is_some());
    assert!(blocked_by_pause(HttpMethod::Get, &format!("{API_BASE}/me/playlists"), &s).is_none());
}

#[test]
fn backoff_doubles_then_stops() {
    assert_eq!(backoff(0), 500);
    assert_eq!(backoff(1), 1000);
    assert_eq!(backoff(4), 8000);
    assert_eq!(backoff(5), 16000);
    assert_eq!(backoff(9), 16000);
    assert_eq!(network_retry(2, true), Some(2000));
    assert_eq!(network_retry(2, false), None);
    assert_eq!(network_retry(5, true), None);
}

#[test]
fn responses_are_sorted_into_actions() {
    match decide_response(200, "{\"a\":1}", &None, QuotaScope::Catalog, 0, false, None) {
        ResponseAction::Done { body: Some(b) } => assert_eq!(b, "{\"a\":1}"),
        other => panic!("unexpected {other:?}"),
    }
    assert!(matches!(
        decide_response(204, "", &None, QuotaScope::Catalog, 0, false, None),
        ResponseAction::Done { body: None }
    ));
    assert!(matches!(
        decide_response(200, "   ", &None, QuotaScope::Catalog, 0, false, None),
        ResponseAction::Done { body: None }
    ));
    assert!(matches!(
        decide_response(401, "", &None, QuotaScope::Catalog, 0, false, None),
        ResponseAction::RefreshAndRetry
    ));
    assert!(matches!(
        decide_response(401, "", &None, QuotaScope::Catalog, 0, true, None),
        ResponseAction::Fail { error: AppError::AuthExpired }
    ));
    assert!(matches!(
        decide_response(429, "", &None, QuotaScope::Catalog, 1, false, Some(120)),
        ResponseAction::WaitAndRetry { secs: 60 }
    ));
    assert!(matches!(
        decide_response(429, "", &None, QuotaScope::Catalog, 1, false, None),
        ResponseAction::WaitAndRetry { secs: 2 }
    ));
    assert!(matches!(
        decide_response(429, "", &None, QuotaScope::Catalog, 5, false, None),
        ResponseAction::Fail { error: AppError::RateLimited }
    ));
    match decide_response(429, "", &envelope(Some("QUOTA_EXCEEDED"), None), QuotaScope::Player, 1, false, None) {
        ResponseAction::PauseAndFail { error: AppError::QuotaExceeded { what } } => {
            assert_eq!(what, "playback control")
        }
        other => panic!("unexpected {other:?}"),
    }
    assert!(matches!(
        decide_response(403, "PREMIUM_REQUIRED", &None, QuotaScope::Player, 0, false, None),
        ResponseAction::Fail { error: AppError::PremiumRequired }
    ));
    assert!(matches!(
        decide_response(404, "", &envelope(None, Some("No active device found")), QuotaScope::Player, 0, false, None),
        ResponseAction::Fail { error: AppError::NoActiveDevice }
    ));
    assert!(matches!(
        decide_response(503, "", &None, QuotaScope::Catalog, 1, false, None),
        ResponseAction::BackoffAndRetry { ms: 1000 }
    ));
    match decide_response(400, "bad", &envelope(None, Some("Invalid limit")), QuotaScope::Catalog, 0, false, None) {
        ResponseAction::Fail { error: AppError::Spotify { status, message } } => {
            assert_eq!(status, 400);
            assert_eq!(message, "Invalid limit");
        }
        other => panic!("unexpected {other:?}"),
    }
}

#[test]
fn tokens_are_refreshed_a_minute_early() {
    assert!(token_is_fresh(&Some("t".to_string()), NOW + 61, NOW));
    assert!(!token_is_fresh(&Some("t".to_string()), NOW + 60, NOW));
    assert!(!token_is_fresh(&Some(String::new()), NOW + 600, NOW));
    assert!(!token_is_fresh(&None, NOW + 600, NOW));
}

#[test]
fn paths_are_made_absolute() {
    assert_eq!(full_url("/me"), format!("{API_BASE}/me"));
    assert_eq!(full_url("https://example.com/x"), "https://example.com/x");
}

#[test]
fn limit_errors_fall_back_to_smaller_pages() {
    assert!(is_limit_error(&AppError::Spotify { status: 400, message: "Invalid LIMIT".to_string() }));
    assert!(!is_limit_error(&AppError::Spotify { status: 404, message: "limit".to_string() }));
    assert!(!is_limit_error(&AppError::RateLimited));
    assert_eq!(requested_limit("50"), 50);
    assert_eq!(requested_limit("abc"), 50);
    assert_eq!(requested_limit("7"), 7);
    assert_eq!(limit_fallbacks(50), vec![Some(20), Some(10), Some(5), None]);
    assert_eq!(limit_fallbacks(10), vec![Some(5), None]);
    assert_eq!(limit_fallbacks(5), vec![None]);
}

#[test]
fn the_poll_asks_only_when_it_can_and_reacts_to_the_answer() {
    assert!(should_poll(true, false));
    assert!(!should_poll(true, true));
    assert!(!should_poll(false, false));
    assert_eq!(poll_step(None), PollStep::Answered);
    assert_eq!(poll_step(Some(&AppError::AuthExpired)), PollStep::SessionExpired);
    assert_eq!(poll_step(Some(&AppError::NotAuthenticated)), PollStep::SessionExpired);
    assert_eq!(poll_step(Some(&AppError::Http("timeout".to_string()))), PollStep::Offline);
    assert_eq!(poll_step(Some(&AppError::QuotaExceeded { what: "x".to_string() })), PollStep::QuotaWait);
    assert_eq!(poll_step(Some(&AppError::RateLimited)), PollStep::Failed);
    assert!(runs_scheduled_work(PollStep::Answered));
    assert!(runs_scheduled_work(PollStep::Failed));
    assert!(!runs_scheduled_work(PollStep::Offline));
    assert!(!runs_scheduled_work(PollStep::SessionExpired));
}

#[test]
fn retry_after_reads_whole_seconds() {
    assert_eq!(retry_after_secs(Some("7")), Some(7));
    assert_eq!(retry_after_secs(Some("+3")), Some(3));
    assert_eq!(retry_after_secs(Some("soon")), None);
    assert_eq!(retry_after_secs(Some("")), None);
    assert_eq!(retry_after_secs(None), None);
}

#[test]
fn credentials_are_read_from_the_store() {
    assert_eq!(stored_client_id(Some("abc".to_string())).unwrap(), "abc");
    assert!(matches!(stored_client_id(Some(String::new())), Err(AppError::NoClientId)));
    assert!(matches!(stored_client_id(None), Err(AppError::NoClientId)));
    assert!(has_session(Some("r")));
    assert!(!has_session(Some("")));
    assert!(!has_session(None));
    assert_eq!(token_expiry(NOW, 3600), NOW + 3600);
    assert_eq!(stored_expiry(Some("1700000000")), 1_700_000_000);
    assert_eq!(stored_expiry(Some("-5")), -5);
    assert_eq!(stored_expiry(Some("+7")), 7);
    assert_eq!(stored_expiry(Some("soon")), 0);
    assert_eq!(stored_expiry(Some("-+5")), 0);
    assert_eq!(stored_expiry(Some("-9223372036854775808")), i64::MIN);
    assert_eq!(stored_expiry(Some("9223372036854775808")), 0);
    assert_eq!(stored_expiry(None), 0);
}

#[test]
fn a_refresh_reuses_a_token_another_task_stored() {
    assert_eq!(
        refresh_plan(Some("old"), Some("new".to_string()), Some("r".to_string())),
        RefreshPlan::UseCurrent("new".to_string())
    );
    assert_eq!(
        refresh_plan(Some("old"), Some("old".to_string()), Some("r".to_string())),
        RefreshPlan::Refresh("r".to_string())
    );
    assert_eq!(refresh_plan(None, Some("x".to_string()), Some("r".to_string())), RefreshPlan::Refresh("r".to_string()));
    assert_eq!(refresh_plan(None, None, Some(String::new())), RefreshPlan::NotSignedIn);
    assert_eq!(refresh_plan(None, None, None), RefreshPlan::NotSignedIn);
}

#[test]
fn a_quota_pause_lasts_a_day() {
    assert_eq!(QUOTA_RETRY_SECS, 24 * 3600);
    let s = QuotaStatus::cleared().with_pause(QuotaScope::Catalog, NOW);
    assert_eq!(s.until(QuotaScope::Catalog), Some(NOW + 86400));
    assert_eq!(s.until(QuotaScope::Player), None);
}
