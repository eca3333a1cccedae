use guild_auth::auth::{ApiErrorResponse, AuthHandlers, ConfirmLoginQuery, LoginEvent, LoginState, OAuthSettings};
use guild_auth::csrf::{CsrfStore, CSRF_TOKEN_TTL_SECS};

const NOW: u64 = 1_700_000_000;
use guild_auth::session::{Credentials, CurrentUser, SessionStore};

fn settings() -> OAuthSettings {
    OAuthSettings {
        client_id: "client123".to_string(),
        auth_url: "https://provider.example/oauth2/authorize".to_string(),
        redirect_url: "http://localhost:7447/confirm_login".to_string(),
    }
}

fn state_of(url: &str) -> String {
    let start = url.find("state=").expect("state parameter") + "state=".len();
    let rest = &url[start..];
    rest.split('&').next().unwrap().to_string()
}

/// A provider stub: accepts the code "C" and reports user 42, "alice".
struct StubProvider {
    exchanges: u32,
}

impl StubProvider {
    fn exchange(&mut self, code: &str) -> Option<Credentials> {
        self.exchanges += 1;
        if code == "C" {
            Some(Credentials { access_token: "at".to_string(), refresh_token: None, expires_in_secs: Some(3600) })
        } else {
            None
        }
    }

    fn identity(&mut self, _credentials: &Credentials) -> Option<CurrentUser> {
        Some(CurrentUser { id: 42, name: "alice".to_string(), avatar: None })
    }
}

fn run_login(auth: &mut AuthHandlers, provider: &mut StubProvider, code: &str, state: &str) -> LoginState {
    let query = ConfirmLoginQuery { code: code.to_string(), state: state.to_string() };
    let mut current = auth.advance_login(LoginState::AwaitingCallback, LoginEvent::Callback { query, now: NOW + 5 });
    loop {
        current = match current {
            LoginState::ExchangingCode { code } => {
                let credentials = provider.exchange(&code);
                auth.advance_login(LoginState::ExchangingCode { code }, LoginEvent::CodeExchanged { credentials })
            },
            LoginState::FetchingIdentity { credentials } => {
                let user = provider.identity(&credentials);
                auth.advance_login(LoginState::FetchingIdentity { credentials }, LoginEvent::IdentityFetched { user })
            },
            done => return done,
        }
    }
}

#[test]
fn csrf_token_is_accepted_once() {
    let mut store = CsrfStore::new();
    let token = store.generate_csrf_token(NOW);
    assert_eq!(token.len(), 32);
    assert!(store.check_csrf_token(&token, NOW + 1));
    assert!(!store.check_csrf_token(&token, NOW + 2));
    assert!(!store.check_csrf_token(&token, NOW + 3));
}

#[test]
fn csrf_unknown_token_is_refused() {
    let mut store = CsrfStore::new();
    store.record_csrf_token("known".to_string(), NOW + 10);
    assert!(!store.check_csrf_token(&"unknown".to_string(), NOW));
    assert!(store.check_csrf_token(&"known".to_string(), NOW));
}

#[test]
fn start_login_url_carries_token_and_scopes() {
    let mut auth = AuthHandlers::new(SessionStore::new(), CsrfStore::new());
    let url = auth.start_login(&settings(), NOW).unwrap();
    assert!(url.starts_with("https://provider.example/oauth2/authorize?"));
    assert!(url.contains("client_id=client123"));
    assert!(url.contains("scope=identify+guilds"));
    assert!(url.contains("response_type=code"));
    let token = state_of(&url);
    assert_eq!(token.len(), 32);
    assert!(auth.csrf_store.check_csrf_token(&token, NOW + CSRF_TOKEN_TTL_SECS - 1));
}

#[test]
fn start_login_with_bad_endpoint_is_internal_error() {
    let mut auth = AuthHandlers::new(SessionStore::new(), CsrfStore::new());
    let mut bad = settings();
    bad.auth_url = "not a url".to_string();
    assert!(matches!(auth.start_login(&bad, NOW), Err(ApiErrorResponse::InternalError)));
    let mut bad_redirect = settings();
    bad_redirect.redirect_url = "/relative/only".to_string();
    assert!(matches!(auth.start_login(&bad_redirect, NOW), Err(ApiErrorResponse::InternalError)));
    assert!(auth.start_login(&settings(), NOW).is_ok());
}

#[test]
fn start_login_is_deterministic_in_its_token() {
    let mut auth = AuthHandlers::new(SessionStore::new(), CsrfStore::new());
    let first = auth.start_login(&settings(), NOW).unwrap();
    let second = auth.start_login(&settings(), NOW).unwrap();
    let t1 = state_of(&first);
    let t2 = state_of(&second);
    assert_ne!(t1, t2);
    assert_eq!(first.replace(&t1, "T"), second.replace(&t2, "T"));
}

#[test]
fn identity_step_on_empty_store_logs_in() {
    let mut auth = AuthHandlers::new(SessionStore::new(), CsrfStore::new());
    auth.csrf_store.record_csrf_token("T1".to_string(), NOW + 60);
    let mut provider = StubProvider { exchanges: 0 };
    match run_login(&mut auth, &mut provider, "C", "T1") {
        LoginState::LoggedIn { session } => assert_eq!(session.user.id, 42),
        _ => panic!("login did not complete"),
    }
}

#[test]
fn end_to_end_login_creates_session() {
    let mut auth = AuthHandlers::new(SessionStore::new(), CsrfStore::new());
    let url = auth.start_login(&settings(), NOW).unwrap();
    let t1 = state_of(&url);
    let mut provider = StubProvider { exchanges: 0 };
    let result = run_login(&mut auth, &mut provider, "C", &t1);
    let session = match result {
        LoginState::LoggedIn { session } => session,
        _ => panic!("login did not complete"),
    };
    assert_eq!(session.user.id, 42);
    assert_eq!(session.user.name, "alice");
    assert_eq!(provider.exchanges, 1);
    let stored = auth.session_store.get_session(&session.token).unwrap();
    assert_eq!(stored.user.id, 42);
    assert_eq!(stored.credentials.access_token, "at");
    // the token was consumed: replaying the callback is refused
    let replay = run_login(&mut auth, &mut provider, "C", &t1);
    assert!(matches!(replay, LoginState::Failed { error: ApiErrorResponse::BadCsrfToken }));
    assert_eq!(provider.exchanges, 1);
}

#[test]
fn wrong_state_never_reaches_exchange() {
    let mut auth = AuthHandlers::new(SessionStore::new(), CsrfStore::new());
    auth.start_login(&settings(), NOW).unwrap();
    let mut provider = StubProvider { exchanges: 0 };
    let result = run_login(&mut auth, &mut provider, "C", "wrong");
    assert!(matches!(result, LoginState::Failed { error: ApiErrorResponse::BadCsrfToken }));
    assert_eq!(provider.exchanges, 0);
}

#[test]
fn failed_exchange_is_internal_error() {
    let mut auth = AuthHandlers::new(SessionStore::new(), CsrfStore::new());
    let url = auth.start_login(&settings(), NOW).unwrap();
    let mut provider = StubProvider { exchanges: 0 };
    let result = run_login(&mut auth, &mut provider, "bad-code", &state_of(&url));
    assert!(matches!(result, LoginState::Failed { error: ApiErrorResponse::InternalError }));
    assert_eq!(provider.exchanges, 1);
}

#[test]
fn failed_identity_fetch_is_internal_error() {
    let mut auth = AuthHandlers::new(SessionStore::new(), CsrfStore::new());
    let credentials = Credentials { access_token: "x".to_string(), refresh_token: None, expires_in_secs: None };
    let next = auth.advance_login(LoginState::FetchingIdentity { credentials }, LoginEvent::IdentityFetched { user: None });
    assert!(matches!(next, LoginState::Failed { error: ApiErrorResponse::InternalError }));
}

#[test]
fn out_of_order_event_fails_and_terminal_states_stay() {
    let mut auth = AuthHandlers::new(SessionStore::new(), CsrfStore::new());
    let next = auth.advance_login(LoginState::AwaitingCallback, LoginEvent::CodeExchanged { credentials: None });
    assert!(matches!(next, LoginState::Failed { error: ApiErrorResponse::InternalError }));
    let kept = auth.advance_login(
        LoginState::Failed { error: ApiErrorResponse::BadCsrfToken },
        LoginEvent::IdentityFetched { user: None },
    );
    assert!(matches!(kept, LoginState::Failed { error: ApiErrorResponse::BadCsrfToken }));
}

#[test]
fn logout_deletes_session() {
    let mut auth = AuthHandlers::new(SessionStore::new(), CsrfStore::new());
    let url = auth.start_login(&settings(), NOW).unwrap();
    let mut provider = StubProvider { exchanges: 0 };
    let session = match run_login(&mut auth, &mut provider, "C", &state_of(&url)) {
        LoginState::LoggedIn { session } => session,
        _ => panic!("login did not complete"),
    };
    auth.logout(&session.token);
    assert!(auth.session_store.get_session(&session.token).is_none());
    auth.logout(&session.token);
}

#[test]
fn session_token_collision_is_refused() {
    let mut store = SessionStore::new();
    let user = CurrentUser { id: 1, name: "a".to_string(), avatar: Some("av".to_string()) };
    let credentials = Credentials { access_token: "t".to_string(), refresh_token: Some("r".to_string()), expires_in_secs: None };
    let first = store.insert_session("tok".to_string(), user.copy(), credentials.copy()).unwrap();
    assert_eq!(first.token, "tok");
    assert!(store.insert_session("tok".to_string(), user.copy(), credentials.copy()).is_none());
    let created = store.create_session(user, credentials).unwrap();
    assert_ne!(created.token, "tok");
    assert_eq!(created.user.avatar, Some("av".to_string()));
    store.del_session(&"tok".to_string());
    assert!(store.get_session(&"tok".to_string()).is_none());
    assert!(store.get_session(&created.token).is_some());
}

#[test]
fn csrf_token_expires_after_ttl() {
    let mut store = CsrfStore::new();
    let token = store.generate_csrf_token(NOW);
    assert!(!store.check_csrf_token(&token, NOW + CSRF_TOKEN_TTL_SECS));
    // the failed check consumed it
    assert!(!store.check_csrf_token(&token, NOW));
}

#[test]
fn csrf_expired_tokens_are_reaped() {
    let mut store = CsrfStore::new();
    store.record_csrf_token("old".to_string(), NOW);
    store.record_csrf_token("fresh".to_string(), NOW + 100);
    store.reap_expired(NOW);
    assert!(!store.check_csrf_token(&"old".to_string(), 0));
    assert!(store.check_csrf_token(&"fresh".to_string(), NOW));
}

#[test]
fn csrf_issue_near_end_of_time_saturates() {
    let mut store = CsrfStore::new();
    let token = store.generate_csrf_token(u64::MAX - 1);
    assert!(store.check_csrf_token(&token, u64::MAX - 1));
}

#[test]
fn expired_state_is_bad_csrf_token() {
    let mut auth = AuthHandlers::new(SessionStore::new(), CsrfStore::new());
    let url = auth.start_login(&settings(), NOW).unwrap();
    let query = ConfirmLoginQuery { code: "C".to_string(), state: state_of(&url) };
    let next = auth.advance_login(LoginState::AwaitingCallback, LoginEvent::Callback { query, now: NOW + CSRF_TOKEN_TTL_SECS });
    assert!(matches!(next, LoginState::Failed { error: ApiErrorResponse::BadCsrfToken }));
}
