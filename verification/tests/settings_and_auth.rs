use utilify::auth::{
    authorize_url, callback_decision, callback_step, exchange_form, generate_pkce, pkce_challenge, redirect_uri,
    refresh_form, scopes, token_failure, CallbackStep, Pkce, TokenError,
};
use utilify::commands::{
    check_external_url, client_id_change, connectivity_event, flag_text, minimize_to_tray_flag, parse_player_command,
    set_online, shown_client_id, update_check_flag, ClientIdChange, PlayerCommand,
};
use utilify::error::AppError;

#[test]
fn the_redirect_and_scopes_are_fixed() {
    assert_eq!(redirect_uri(), "http://127.0.0.1:8377/callback");
    let s = scopes();
    assert_eq!(s[0], "playlist-read-private");
    assert!(s.len() > 3);
}

#[test]
fn the_pkce_challenge_is_the_hashed_verifier() {
    // RFC 7636, appendix B.
    assert_eq!(
        pkce_challenge("dBjftJeZ4CVP-mB92K27uhbUJU1p1r_wW1gFWFOEjXk"),
        "E9Melhoa2OwvFrEMTJguCHaoeK1t8URWbuGJSstw-cM"
    );
    let p = generate_pkce();
    assert_eq!(p.verifier.len(), 64);
    assert_eq!(p.state.len(), 24);
    assert!(p.verifier.chars().all(|c| c.is_ascii_alphanumeric()));
    assert_eq!(p.challenge, pkce_challenge(&p.verifier));
}

#[test]
fn the_authorize_url_carries_every_parameter() {
    let p = Pkce { verifier: "v".to_string(), challenge: "ch".to_string(), state: "st".to_string() };
    let u = authorize_url("abc", &p).unwrap();
    assert!(u.starts_with("https://accounts.spotify.com/authorize?client_id=abc&response_type=code"));
    assert!(u.contains("redirect_uri=http%3A%2F%2F127.0.0.1%3A8377%2Fcallback"));
    assert!(u.contains("code_challenge_method=S256&code_challenge=ch&state=st&scope=playlist-read-private+"));
}

#[test]
fn token_forms_and_failures() {
    let f = exchange_form("id", "code", "ver");
    assert_eq!(f[0], ("grant_type".to_string(), "authorization_code".to_string()));
    assert_eq!(f.len(), 5);
    let r = refresh_form("id", "tok");
    assert_eq!(r[1], ("refresh_token".to_string(), "tok".to_string()));
    let expired = Some(TokenError { error: "invalid_grant".to_string(), error_description: None });
    assert!(matches!(token_failure(&expired, "400 Bad Request", ""), AppError::AuthExpired));
    let other = Some(TokenError { error: "invalid_client".to_string(), error_description: Some("bad".to_string()) });
    match token_failure(&other, "400 Bad Request", "") {
        AppError::Auth(m) => assert_eq!(m, "invalid_client: bad"),
        e => panic!("unexpected {e:?}"),
    }
    match token_failure(&None, "500 Internal Server Error", "oops") {
        AppError::Auth(m) => assert_eq!(m, "token endpoint returned 500 Internal Server Error: oops"),
        e => panic!("unexpected {e:?}"),
    }
}

#[test]
fn the_callback_listener_answers_each_request() {
    match callback_step("/callback?code=xyz&state=s1", "s1") {
        CallbackStep::Finish { status: 200, result: Ok(code), .. } => assert_eq!(code, "xyz"),
        other => panic!("unexpected {other:?}"),
    }
    assert!(matches!(callback_step("/favicon.ico", "s1"), CallbackStep::Respond { status: 404, .. }));
    match callback_step("/callback?code=xyz&state=other", "s1") {
        CallbackStep::Finish { status: 400, result: Err(AppError::Auth(m)), .. } => {
            assert_eq!(m, "OAuth state mismatch. Close any old Spotify tabs and try again.")
        }
        other => panic!("unexpected {other:?}"),
    }
    match callback_step("/callback?error=access_denied&state=s1", "s1") {
        CallbackStep::Finish { status: 200, result: Err(AppError::Auth(m)), .. } => {
            assert_eq!(m, "Spotify authorization denied: access_denied")
        }
        other => panic!("unexpected {other:?}"),
    }
    assert!(matches!(
        callback_step("/callback?state=s1", "s1"),
        CallbackStep::Respond { status: 400, message: "Missing authorization code." }
    ));
    assert!(matches!(callback_decision(None, "s1"), CallbackStep::Respond { status: 400, message: "Bad request" }));
    let parsed = Some(("/callback".to_string(), vec![("state".to_string(), "s1".to_string()), ("code".to_string(), "a%20b".to_string())]));
    match callback_decision(parsed, "s1") {
        CallbackStep::Finish { result: Ok(code), .. } => assert_eq!(code, "a%20b"),
        other => panic!("unexpected {other:?}"),
    }
}

#[test]
fn client_ids_are_checked() {
    assert!(matches!(client_id_change("   ", Some("x")), Ok(ClientIdChange::Clear)));
    match client_id_change(" 0123456789abcdef0123456789ABCDEF ", Some("0123456789abcdef0123456789ABCDEF")) {
        Ok(ClientIdChange::Store { client_id, drop_tokens }) => {
            assert_eq!(client_id, "0123456789abcdef0123456789ABCDEF");
            assert!(!drop_tokens);
        }
        other => panic!("unexpected {other:?}"),
    }
    match client_id_change("0123456789abcdef0123456789abcdef", None) {
        Ok(ClientIdChange::Store { drop_tokens, .. }) => assert!(drop_tokens),
        other => panic!("unexpected {other:?}"),
    }
    match client_id_change("not-an-id", None) {
        Err(AppError::Other(m)) => assert_eq!(m, "A Spotify Client ID is 32 hexadecimal characters."),
        other => panic!("unexpected {other:?}"),
    }
    assert_eq!(shown_client_id(Some(String::new())), None);
    assert_eq!(shown_client_id(Some("x".to_string())), Some("x".to_string()));
}

#[test]
fn switches_and_links() {
    assert!(minimize_to_tray_flag(None));
    assert!(!minimize_to_tray_flag(Some("false")));
    assert!(!minimize_to_tray_flag(Some("0")));
    assert!(minimize_to_tray_flag(Some("1")));
    assert!(!update_check_flag(None));
    assert!(update_check_flag(Some("1")));
    assert_eq!(flag_text(true), "1");
    assert_eq!(flag_text(false), "0");
    assert!(check_external_url("https://developer.spotify.com/dashboard").is_ok());
    assert!(check_external_url("file:///etc/passwd").is_err());
}

#[test]
fn player_commands_are_read() {
    assert_eq!(parse_player_command("play", None).unwrap(), PlayerCommand::Play);
    assert_eq!(parse_player_command("seek", Some("125000")).unwrap(), PlayerCommand::Seek(125_000));
    assert!(parse_player_command("seek", Some("soon")).is_err());
    assert_eq!(parse_player_command("shuffle", Some("true")).unwrap(), PlayerCommand::Shuffle(true));
    assert_eq!(parse_player_command("shuffle", None).unwrap(), PlayerCommand::Shuffle(false));
    assert_eq!(parse_player_command("repeat", None).unwrap(), PlayerCommand::Repeat("off".to_string()));
    assert!(parse_player_command("repeat", Some("always")).is_err());
    match parse_player_command("dance", None) {
        Err(AppError::Other(m)) => assert_eq!(m, "unknown player action 'dance'"),
        other => panic!("unexpected {other:?}"),
    }
}

#[test]
fn connectivity_changes_are_reported_once() {
    let (since, changed) = set_online(None, false, 100);
    assert_eq!((since, changed), (Some(100), Some(false)));
    assert_eq!(set_online(since, false, 130), (Some(100), None));
    assert_eq!(set_online(Some(100), true, 160), (None, Some(true)));
    assert_eq!(set_online(None, true, 190), (None, None));
    let e = connectivity_event(false, 5);
    assert!(!e.online);
    assert_eq!(e.since, Some(5));
}
