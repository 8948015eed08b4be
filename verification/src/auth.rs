//! Spotify OAuth 2.0 Authorization Code flow with PKCE: the redirect
//! address, the verifier and its challenge, the authorize URL, the token
//! endpoint's errors, and what each request to the loopback callback means.
use vstd::prelude::*;
use vstd::string::StringExecFns;

use crate::error::AppError;
use crate::models::{join_spec, join_strings, str_eq};
use crate::text::{chars_of, concat_chars, is_ascii_alphanumeric_spec, string_from_chars};

verus! {

pub const ACCOUNTS_BASE: &'static str = "https://accounts.spotify.com";

pub const REDIRECT_PORT: u16 = 8377;

pub const CALLBACK_PATH: &'static str = "/callback";

/// The permissions asked for, in order.
pub open spec fn scopes_spec() -> Seq<Seq<char>> {
    seq![
        "playlist-read-private"@,
        "playlist-read-collaborative"@,
        "playlist-modify-public"@,
        "playlist-modify-private"@,
        "user-read-playback-state"@,
        "user-modify-playback-state"@,
        "user-read-currently-playing"@,
        "user-library-read"@,
        "user-follow-read"@,
        "user-read-private"@,
    ]
}

pub fn scopes() -> (r: Vec<String>)
    ensures
        r@.map_values(|s: String| s@) == scopes_spec(),
{
    let mut r: Vec<String> = Vec::new();
    r.push(String::from_str("playlist-read-private"));
    r.push(String::from_str("playlist-read-collaborative"));
    r.push(String::from_str("playlist-modify-public"));
    r.push(String::from_str("playlist-modify-private"));
    r.push(String::from_str("user-read-playback-state"));
    r.push(String::from_str("user-modify-playback-state"));
    r.push(String::from_str("user-read-currently-playing"));
    r.push(String::from_str("user-library-read"));
    r.push(String::from_str("user-follow-read"));
    r.push(String::from_str("user-read-private"));
    assert(r@.map_values(|s: String| s@) =~= scopes_spec());
    r
}

/// The loopback address Spotify redirects the browser to.
pub fn redirect_uri() -> (r: String)
    ensures
        r@ == "http://127.0.0.1:8377/callback"@,
{
    String::from_str("http://127.0.0.1:8377/callback")
}

pub struct Pkce {
    pub verifier: String,
    pub challenge: String,
    pub state: String,
}

/// SHA-256 of the UTF-8 bytes of a text.
pub uninterp spec fn sha256_of(text: Seq<char>) -> Seq<u8>;

/// Base64 with the URL-safe alphabet and no padding.
pub uninterp spec fn base64url_of(bytes: Seq<u8>) -> Seq<char>;

/// `rand`'s `Alphanumeric` distribution: `len` characters, each drawn from
/// `A-Z`, `a-z` and `0-9`. Which ones is up to the thread's generator.
#[verifier::external_body]
fn random_string(len: usize) -> (r: String)
    ensures
        r@.len() == len,
        forall|i: int| 0 <= i < r@.len() ==> is_ascii_alphanumeric_spec(#[trigger] r@[i]),
{
    rand::Rng::sample_iter(rand::rng(), rand::distr::Alphanumeric).take(len).map(char::from).collect()
}

/// `sha2::Sha256::digest` of the text's bytes: the 32-byte digest, named
/// `sha256_of`.
#[verifier::external_body]
fn sha256_digest(text: &str) -> (r: Vec<u8>)
    ensures
        r@ == sha256_of(text@),
        r@.len() == 32,
{
    <sha2::Sha256 as sha2::Digest>::digest(text.as_bytes()).to_vec()
}

/// `base64::engine::general_purpose::URL_SAFE_NO_PAD.encode`, named
/// `base64url_of`.
#[verifier::external_body]
fn base64url_encode(bytes: &[u8]) -> (r: String)
    ensures
        r@ == base64url_of(bytes@),
{
    base64::Engine::encode(&base64::engine::general_purpose::URL_SAFE_NO_PAD, bytes)
}

/// The S256 challenge of a verifier.
pub fn pkce_challenge(verifier: &str) -> (r: String)
    ensures
        r@ == base64url_of(sha256_of(verifier@)),
{
    let digest = sha256_digest(verifier);
    base64url_encode(digest.as_slice())
}

/// A fresh verifier (64 alphanumeric characters), its challenge, and a
/// state value (24 alphanumeric characters).
pub fn generate_pkce() -> (p: Pkce)
    ensures
        p.verifier@.len() == 64,
        p.state@.len() == 24,
        forall|i: int| 0 <= i < 64 ==> is_ascii_alphanumeric_spec(#[trigger] p.verifier@[i]),
        forall|i: int| 0 <= i < 24 ==> is_ascii_alphanumeric_spec(#[trigger] p.state@[i]),
        p.challenge@ == base64url_of(sha256_of(p.verifier@)),
{
    let verifier = random_string(64);
    let challenge = pkce_challenge(verifier.as_str());
    let state = random_string(24);
    Pkce { verifier, challenge, state }
}

/// What `url::Url::parse_with_params(base, params)` gives as text, or the
/// text of its error.
pub uninterp spec fn url_with_params_of(base: Seq<char>, params: Seq<(Seq<char>, Seq<char>)>) -> Result<
    Seq<char>,
    Seq<char>,
>;

pub open spec fn param_views(params: Seq<(String, String)>) -> Seq<(Seq<char>, Seq<char>)> {
    params.map_values(|p: (String, String)| (p.0@, p.1@))
}

/// `url::Url::parse_with_params`: the URL with the pairs appended as a
/// form-encoded query, as text; on failure the text of the parse error.
#[verifier::external_body]
fn url_with_params(base: &str, params: &Vec<(String, String)>) -> (r: Result<String, String>)
    ensures
        match r {
            Ok(u) => url_with_params_of(base@, param_views(params@)) == Ok::<Seq<char>, Seq<char>>(u@),
            Err(e) => url_with_params_of(base@, param_views(params@)) == Err::<Seq<char>, Seq<char>>(e@),
        },
{
    match url::Url::parse_with_params(base, params.iter().map(|p| (p.0.as_str(), p.1.as_str()))) {
        Ok(u) => Ok(u.into()),
        Err(e) => Err(e.to_string()),
    }
}

/// The query of the authorize request, in order.
pub open spec fn authorize_params(client_id: Seq<char>, challenge: Seq<char>, state: Seq<char>) -> Seq<(Seq<char>, Seq<char>)> {
    seq![
        ("client_id"@, client_id),
        ("response_type"@, "code"@),
        ("redirect_uri"@, "http://127.0.0.1:8377/callback"@),
        ("code_challenge_method"@, "S256"@),
        ("code_challenge"@, challenge),
        ("state"@, state),
        ("scope"@, join_spec(scopes_spec(), " "@)),
    ]
}

fn pair(k: &str, v: String) -> (r: (String, String))
    ensures
        r.0@ == k@,
        r.1 == v,
{
    (String::from_str(k), v)
}

/// The address that starts the authorization in the browser.
pub fn authorize_url(client_id: &str, pkce: &Pkce) -> (r: Result<String, AppError>)
    ensures
        match url_with_params_of(
            (ACCOUNTS_BASE@ + "/authorize"@),
            authorize_params(client_id@, pkce.challenge@, pkce.state@),
        ) {
            Ok(u) => r matches Ok(s) && s@ == u,
            Err(e) => r matches Err(AppError::Other(m)) && m@ == "bad authorize URL: "@ + e,
        },
{
    let base = concat_chars(&chars_of(ACCOUNTS_BASE), &chars_of("/authorize"));
    let base_text = string_from_chars(base.as_slice());
    let mut params: Vec<(String, String)> = Vec::new();
    params.push(pair("client_id", String::from_str(client_id)));
    params.push(pair("response_type", String::from_str("code")));
    params.push(pair("redirect_uri", redirect_uri()));
    params.push(pair("code_challenge_method", String::from_str("S256")));
    params.push(pair("code_challenge", pkce.challenge.clone()));
    params.push(pair("state", pkce.state.clone()));
    params.push(pair("scope", join_strings(&scopes(), " ")));
    assert(param_views(params@) =~= authorize_params(client_id@, pkce.challenge@, pkce.state@));
    match url_with_params(base_text.as_str(), &params) {
        Ok(u) => Ok(u),
        Err(e) => {
            let m = concat_chars(&chars_of("bad authorize URL: "), &chars_of(e.as_str()));
            Err(AppError::Other(string_from_chars(m.as_slice())))
        },
    }
}

// ---- the token endpoint -------------------------------------------------------------------

#[derive(Debug, Clone)]
pub struct TokenResponse {
    pub access_token: String,
    pub token_type: Option<String>,
    pub scope: Option<String>,
    pub expires_in: u64,
    pub refresh_token: Option<String>,
}

/// The token endpoint's error body.
#[derive(Debug, Clone)]
pub struct TokenError {
    pub error: String,
    pub error_description: Option<String>,
}

/// The form that trades an authorization code for tokens.
pub fn exchange_form(client_id: &str, code: &str, verifier: &str) -> (r: Vec<(String, String)>)
    ensures
        param_views(r@) == seq![
            ("grant_type"@, "authorization_code"@),
            ("code"@, code@),
            ("redirect_uri"@, "http://127.0.0.1:8377/callback"@),
            ("client_id"@, client_id@),
            ("code_verifier"@, verifier@),
        ],
{
    let mut r: Vec<(String, String)> = Vec::new();
    r.push(pair("grant_type", String::from_str("authorization_code")));
    r.push(pair("code", String::from_str(code)));
    r.push(pair("redirect_uri", redirect_uri()));
    r.push(pair("client_id", String::from_str(client_id)));
    r.push(pair("code_verifier", String::from_str(verifier)));
    assert(param_views(r@) =~= seq![
        ("grant_type"@, "authorization_code"@),
        ("code"@, code@),
        ("redirect_uri"@, "http://127.0.0.1:8377/callback"@),
        ("client_id"@, client_id@),
        ("code_verifier"@, verifier@),
    ]);
    r
}

/// The form that trades a refresh token for a new access token.
pub fn refresh_form(client_id: &str, refresh_token: &str) -> (r: Vec<(String, String)>)
    ensures
        param_views(r@) == seq![
            ("grant_type"@, "refresh_token"@),
            ("refresh_token"@, refresh_token@),
            ("client_id"@, client_id@),
        ],
{
    let mut r: Vec<(String, String)> = Vec::new();
    r.push(pair("grant_type", String::from_str("refresh_token")));
    r.push(pair("refresh_token", String::from_str(refresh_token)));
    r.push(pair("client_id", String::from_str(client_id)));
    assert(param_views(r@) =~= seq![
        ("grant_type"@, "refresh_token"@),
        ("refresh_token"@, refresh_token@),
        ("client_id"@, client_id@),
    ]);
    r
}

/// The message of a failed token request that did not end the session:
/// "error: description" from an error body, else the status line and body.
pub open spec fn token_failure_message(err: Option<TokenError>, status_line: Seq<char>, text: Seq<char>) -> Seq<char> {
    match err {
        Some(e) => e.error@ + ": "@ + match e.error_description {
            Some(d) => d@,
            None => Seq::empty(),
        },
        None => "token endpoint returned "@ + status_line + ": "@ + text,
    }
}

/// The error for a failed token request: a revoked or expired grant ends
/// the session; anything else is an authorization error.
pub fn token_failure(err: &Option<TokenError>, status_line: &str, text: &str) -> (r: AppError)
    ensures
        (err matches Some(e) && e.error@ == "invalid_grant"@) ==> r matches AppError::AuthExpired,
        !(err matches Some(e) && e.error@ == "invalid_grant"@) ==> (r matches AppError::Auth(m) && m@
            == token_failure_message(*err, status_line@, text@)),
{
    match err {
        Some(e) => {
            if str_eq(e.error.as_str(), "invalid_grant") {
                return AppError::AuthExpired;
            }
            let head = concat_chars(&chars_of(e.error.as_str()), &chars_of(": "));
            let desc = match &e.error_description {
                Some(d) => chars_of(d.as_str()),
                None => Vec::new(),
            };
            let all = concat_chars(&head, &desc);
            AppError::Auth(string_from_chars(all.as_slice()))
        },
        None => {
            let a = concat_chars(&chars_of("token endpoint returned "), &chars_of(status_line));
            let b = concat_chars(&a, &chars_of(": "));
            let all = concat_chars(&b, &chars_of(text));
            AppError::Auth(string_from_chars(all.as_slice()))
        },
    }
}

// ---- the loopback callback ------------------------------------------------------------------

/// What `url::Url::parse` makes of a text: its path and its decoded query
/// pairs, in order; `None` when it does not parse.
pub uninterp spec fn url_parts_of(url: Seq<char>) -> Option<(Seq<char>, Seq<(Seq<char>, Seq<char>)>)>;

/// `url::Url::parse`, then `path` and `query_pairs` of the result, named
/// `url_parts_of`.
#[verifier::external_body]
fn url_parts(url: &str) -> (r: Option<(String, Vec<(String, String)>)>)
    ensures
        match r {
            Some((path, pairs)) => url_parts_of(url@) == Some((path@, param_views(pairs@))),
            None => url_parts_of(url@) is None,
        },
{
    match url::Url::parse(url) {
        Ok(u) => Some((
            u.path().to_string(),
            u.query_pairs().map(|p| (p.0.into_owned(), p.1.into_owned())).collect(),
        )),
        Err(_) => None,
    }
}

/// The value of the last pair named `key`.
pub open spec fn last_value(pairs: Seq<(Seq<char>, Seq<char>)>, key: Seq<char>) -> Option<Seq<char>>
    decreases pairs.len(),
{
    if pairs.len() == 0 {
        None
    } else if pairs.last().0 == key {
        Some(pairs.last().1)
    } else {
        last_value(pairs.drop_last(), key)
    }
}

fn find_last(pairs: &Vec<(String, String)>, key: &str) -> (r: Option<String>)
    ensures
        match r {
            Some(v) => last_value(param_views(pairs@), key@) == Some(v@),
            None => last_value(param_views(pairs@), key@) is None,
        },
{
    let ghost pv = param_views(pairs@);
    assert(pv.subrange(0, pv.len() as int) =~= pv);
    let mut k: usize = pairs.len();
    while k > 0
        invariant
            k <= pairs@.len(),
            pv == param_views(pairs@),
            last_value(pv, key@) == last_value(pv.subrange(0, k as int), key@),
        decreases k,
    {
        let ghost s = pv.subrange(0, k as int);
        assert(s.drop_last() =~= pv.subrange(0, k - 1));
        assert(s.last() == pv[k - 1]);
        if str_eq(pairs[k - 1].0.as_str(), key) {
            return Some(pairs[k - 1].1.clone());
        }
        k -= 1;
    }
    None
}

/// What one request to the callback listener leads to: an answer page and
/// either more waiting or the end of the wait.
#[derive(Debug)]
pub enum CallbackStep {
    /// Answer with this page and keep waiting.
    Respond { status: u16, message: &'static str },
    /// Answer with this page and stop: the code, or why there is none.
    Finish { status: u16, message: &'static str, result: Result<String, AppError> },
}

/// The step for a request, from what the request's URL parsed into.
pub open spec fn callback_decision_ok(
    parsed: Option<(Seq<char>, Seq<(Seq<char>, Seq<char>)>)>,
    expected_state: Seq<char>,
    r: CallbackStep,
) -> bool {
    match parsed {
        None => r matches CallbackStep::Respond { status, message } && status == 400 && message@ == "Bad request"@,
        Some((path, pairs)) => if path != "/callback"@ {
            r matches CallbackStep::Respond { status, message } && status == 404 && message@ == "Not found"@
        } else if last_value(pairs, "error"@) is Some {
            r matches CallbackStep::Finish { status, message, result: Err(AppError::Auth(m)) } && status == 200
                && message@
                == "Spotify authorization was denied. You can close this tab and try again in Utilify."@ && m@
                == "Spotify authorization denied: "@ + last_value(pairs, "error"@)->Some_0
        } else if last_value(pairs, "state"@) != Some(expected_state) {
            r matches CallbackStep::Finish { status, message, result: Err(AppError::Auth(m)) } && status == 400
                && message@ == "State mismatch. Close this tab and try again."@ && m@
                == "OAuth state mismatch. Close any old Spotify tabs and try again."@
        } else if last_value(pairs, "code"@) is Some {
            r matches CallbackStep::Finish { status, message, result: Ok(code) } && status == 200 && message@
                == "Utilify is connected to Spotify. You can close this tab."@ && code@ == last_value(
                pairs,
                "code"@,
            )->Some_0
        } else {
            r matches CallbackStep::Respond { status, message } && status == 400 && message@
                == "Missing authorization code."@
        },
    }
}

pub open spec fn parsed_view(parsed: Option<(String, Vec<(String, String)>)>) -> Option<
    (Seq<char>, Seq<(Seq<char>, Seq<char>)>),
> {
    match parsed {
        Some((path, pairs)) => Some((path@, param_views(pairs@))),
        None => None,
    }
}

/// Decide what a request to the loopback listener means, from its URL's
/// path and query pairs (`None` when the URL did not parse).
pub fn callback_decision(parsed: Option<(String, Vec<(String, String)>)>, expected_state: &str) -> (r: CallbackStep)
    ensures
        callback_decision_ok(parsed_view(parsed), expected_state@, r),
{
    let (path, pairs) = match parsed {
        Some(p) => p,
        None => {
            return CallbackStep::Respond { status: 400, message: "Bad request" };
        },
    };
    if !str_eq(path.as_str(), CALLBACK_PATH) {
        return CallbackStep::Respond { status: 404, message: "Not found" };
    }
    let code = find_last(&pairs, "code");
    let state = find_last(&pairs, "state");
    let error = find_last(&pairs, "error");
    if let Some(err) = error {
        let m = concat_chars(&chars_of("Spotify authorization denied: "), &chars_of(err.as_str()));
        return CallbackStep::Finish {
            status: 200,
            message: "Spotify authorization was denied. You can close this tab and try again in Utilify.",
            result: Err(AppError::Auth(string_from_chars(m.as_slice()))),
        };
    }
    let state_ok = match &state {
        Some(s) => str_eq(s.as_str(), expected_state),
        None => false,
    };
    if !state_ok {
        return CallbackStep::Finish {
            status: 400,
            message: "State mismatch. Close this tab and try again.",
            result: Err(AppError::Auth(String::from_str("OAuth state mismatch. Close any old Spotify tabs and try again."))),
        };
    }
    match code {
        Some(code) => CallbackStep::Finish {
            status: 200,
            message: "Utilify is connected to Spotify. You can close this tab.",
            result: Ok(code),
        },
        None => CallbackStep::Respond { status: 400, message: "Missing authorization code." },
    }
}

/// Decide what a request to the loopback listener means, from its target
/// (path and query).
pub fn callback_step(target: &str, expected_state: &str) -> (r: CallbackStep)
    ensures
        callback_decision_ok(url_parts_of("http://127.0.0.1"@ + target@), expected_state@, r),
{
    let full = concat_chars(&chars_of("http://127.0.0.1"), &chars_of(target));
    let url = string_from_chars(full.as_slice());
    let parsed = url_parts(url.as_str());
    proof {
        reveal_strlit("http://127.0.0.1");
    }
    callback_decision(parsed, expected_state)
}

} // verus!
