//! The login flow: CSRF-protected OAuth2 authorization-code exchange, session
//! issuance and logout.
//!
//! The network steps (exchanging the code, fetching the identity) are done by
//! the caller: `advance_login` says which step comes next and takes its outcome
//! back as an event.
use vstd::prelude::*;
use crate::csrf::{accepts, expiry_after, unexpired, CsrfStore};
use crate::session::{Credentials, CurrentUser, Session, SessionStore};

verus! {

/// The errors that the login flow reports to its callers.
#[derive(PartialEq, Eq, Structural, Clone, Copy, Debug)]
pub enum ApiErrorResponse {
    /// The callback's `state` is not a pending CSRF token: the login must restart.
    BadCsrfToken,
    /// A provider, network or storage failure; details are not exposed.
    InternalError,
}

/// The query of the provider's redirect back to this service.
pub struct ConfirmLoginQuery {
    pub code: String,
    pub state: String,
}

/// Where the identity provider's authorization endpoint is, and who this client is.
pub struct OAuthSettings {
    pub client_id: String,
    pub auth_url: String,
    pub redirect_url: String,
}

/// Names whether `url::Url::parse`, which oauth2's `AuthUrl::new` and
/// `RedirectUrl::new` call, accepts the text as an absolute URL.
pub uninterp spec fn parses_as_url(s: Seq<char>) -> bool;

/// Names the authorization URL that oauth2 builds from these arguments.
pub uninterp spec fn authorization_url(
    client_id: Seq<char>,
    auth_url: Seq<char>,
    redirect_url: Seq<char>,
    scopes: Seq<Seq<char>>,
    state: Seq<char>,
) -> Seq<char>;

/// Relies on oauth2's `Client::authorize_url(..).url()`: the URL of the
/// authorization endpoint with the client id, redirect URL, scopes and state
/// as query parameters. `None` when an endpoint URL does not parse.
#[verifier::external_body]
fn build_authorize_url(
    client_id: &String,
    auth_url: &String,
    redirect_url: &String,
    scopes: &Vec<String>,
    state: &String,
) -> (r: Option<String>)
    ensures
        r is Some <==> (parses_as_url(auth_url@) && parses_as_url(redirect_url@)),
        r matches Some(u) ==> u@ == authorization_url(client_id@, auth_url@, redirect_url@, scopes@.map_values(|s: String| s@), state@),
{
    let auth = oauth2::AuthUrl::new(auth_url.clone()).ok()?;
    let redirect = oauth2::RedirectUrl::new(redirect_url.clone()).ok()?;
    let client = oauth2::basic::BasicClient::new(oauth2::ClientId::new(client_id.clone()), None, auth, None)
        .set_redirect_uri(redirect);
    let token = oauth2::CsrfToken::new(state.clone());
    let (url, _) = client.authorize_url(move || token).add_scopes(scopes.iter().cloned().map(oauth2::Scope::new)).url();
    Some(url.to_string())
}

/// The scopes a login asks for: the user's identity and guild memberships.
pub open spec fn login_scopes() -> Seq<Seq<char>> {
    seq!["identify"@, "guilds"@]
}

fn login_scope_list() -> (r: Vec<String>)
    ensures
        r@.map_values(|s: String| s@) == login_scopes(),
{
    let r = vec!["identify".to_owned(), "guilds".to_owned()];
    proof {
        reveal_strlit("identify");
        reveal_strlit("guilds");
        assert(r@.map_values(|s: String| s@) =~= login_scopes());
    }
    r
}

/// Where one login attempt stands. The next step is the caller's to perform:
/// `ExchangingCode` asks for the code to be exchanged, `FetchingIdentity` for
/// the identity to be fetched with the credentials.
pub enum LoginState {
    /// A CSRF token was issued; the provider's callback is awaited.
    AwaitingCallback,
    /// The callback's state was valid; its code is to be exchanged.
    ExchangingCode { code: String },
    /// The code was exchanged; the user's identity is to be fetched.
    FetchingIdentity { credentials: Credentials },
    /// A session was created.
    LoggedIn { session: Session },
    /// The attempt failed; it cannot be resumed.
    Failed { error: ApiErrorResponse },
}

/// The outcome of a step of the login, handed to `advance_login`.
pub enum LoginEvent {
    /// The provider redirected back with this query, at second `now`.
    Callback { query: ConfirmLoginQuery, now: u64 },
    /// The code exchange returned these credentials, or failed.
    CodeExchanged { credentials: Option<Credentials> },
    /// The identity fetch returned this user, or failed.
    IdentityFetched { user: Option<CurrentUser> },
}

/// The state after `event` in `state`, for every step that creates no session.
pub open spec fn next_login_state(state: LoginState, event: LoginEvent, pending: Map<Seq<char>, u64>) -> LoginState {
    match state {
        LoginState::AwaitingCallback => match event {
            LoginEvent::Callback { query, now } => if accepts(pending, query.state@, now) {
                LoginState::ExchangingCode { code: query.code }
            } else {
                LoginState::Failed { error: ApiErrorResponse::BadCsrfToken }
            },
            _ => LoginState::Failed { error: ApiErrorResponse::InternalError },
        },
        LoginState::ExchangingCode { .. } => match event {
            LoginEvent::CodeExchanged { credentials: Some(c) } => LoginState::FetchingIdentity { credentials: c },
            _ => LoginState::Failed { error: ApiErrorResponse::InternalError },
        },
        LoginState::FetchingIdentity { .. } => LoginState::Failed { error: ApiErrorResponse::InternalError },
        _ => state,
    }
}

/// The step that creates a session: the identity was fetched.
pub open spec fn creates_session(state: LoginState, event: LoginEvent) -> bool {
    &&& state is FetchingIdentity
    &&& event matches LoginEvent::IdentityFetched { user: Some(_) }
}

/// The step that consumes a CSRF token: the callback while it is awaited.
pub open spec fn consumes_token(state: LoginState, event: LoginEvent) -> bool {
    &&& state is AwaitingCallback
    &&& event is Callback
}

/// The login flow's stores.
pub struct AuthHandlers {
    pub session_store: SessionStore,
    pub csrf_store: CsrfStore,
}

impl AuthHandlers {
    pub open spec fn wf(&self) -> bool {
        self.session_store.wf() && self.csrf_store.wf()
    }

    pub fn new(session_store: SessionStore, csrf_store: CsrfStore) -> (r: AuthHandlers)
        ensures
            r.session_store == session_store,
            r.csrf_store == csrf_store,
    {
        AuthHandlers { csrf_store, session_store }
    }

    /// Starts a login at second `now`: drops expired CSRF tokens, issues a
    /// new one and returns the provider's authorization URL carrying it as
    /// `state`. Fails with `InternalError` when the configured endpoint URLs
    /// do not parse.
    pub fn start_login(&mut self, settings: &OAuthSettings, now: u64) -> (r: Result<String, ApiErrorResponse>)
        requires
            old(self).wf(),
        ensures
            final(self).wf(),
            final(self).session_store == old(self).session_store,
            exists|token: Seq<char>| {
                &&& final(self).csrf_store.pending() == unexpired(old(self).csrf_store.pending(), now).insert(token, expiry_after(now))
                &&& r matches Ok(url) ==> url@ == authorization_url(
                    settings.client_id@,
                    settings.auth_url@,
                    settings.redirect_url@,
                    login_scopes(),
                    token,
                )
            },
            r is Ok <==> (parses_as_url(settings.auth_url@) && parses_as_url(settings.redirect_url@)),
            r matches Err(e) ==> e == ApiErrorResponse::InternalError,
    {
        let token = self.csrf_store.generate_csrf_token(now);
        let scopes = login_scope_list();
        match build_authorize_url(&settings.client_id, &settings.auth_url, &settings.redirect_url, &scopes, &token) {
            Some(url) => Ok(url),
            None => Err(ApiErrorResponse::InternalError),
        }
    }

    /// Takes one login attempt from `state` to its next state on `event`.
    /// The callback consumes its `state` token whether or not it is valid, and
    /// only a pending, unexpired one leads to the code exchange. Fetching the identity
    /// creates a session under a fresh token. Any failure is final.
    pub fn advance_login(&mut self, state: LoginState, event: LoginEvent) -> (r: LoginState)
        requires
            old(self).wf(),
        ensures
            final(self).wf(),
            consumes_token(state, event) ==> final(self).csrf_store.pending()
                == old(self).csrf_store.pending().remove(event->query.state@),
            !consumes_token(state, event) ==> final(self).csrf_store == old(self).csrf_store,
            !creates_session(state, event) ==> final(self).session_store == old(self).session_store
                && r == next_login_state(state, event, old(self).csrf_store.pending()),
            creates_session(state, event) ==> match r {
                LoginState::LoggedIn { session } => session.user == event->user->0
                    && session.credentials == state->credentials
                    && !old(self).session_store.has_token(session.token@)
                    && final(self).session_store.sessions() == old(self).session_store.sessions().push(session),
                LoginState::Failed { error } => error == ApiErrorResponse::InternalError
                    && final(self).session_store.sessions() == old(self).session_store.sessions(),
                _ => false,
            },
            creates_session(state, event) && old(self).session_store.sessions().len() == 0 ==> r is LoggedIn,
    {
        match state {
            LoginState::AwaitingCallback => match event {
                LoginEvent::Callback { query, now } => {
                    if self.csrf_store.check_csrf_token(&query.state, now) {
                        LoginState::ExchangingCode { code: query.code }
                    } else {
                        LoginState::Failed { error: ApiErrorResponse::BadCsrfToken }
                    }
                },
                _ => LoginState::Failed { error: ApiErrorResponse::InternalError },
            },
            LoginState::ExchangingCode { .. } => match event {
                LoginEvent::CodeExchanged { credentials: Some(c) } => LoginState::FetchingIdentity { credentials: c },
                _ => LoginState::Failed { error: ApiErrorResponse::InternalError },
            },
            LoginState::FetchingIdentity { credentials } => match event {
                LoginEvent::IdentityFetched { user: Some(u) } => match self.session_store.create_session(u, credentials) {
                    Some(session) => LoginState::LoggedIn { session },
                    None => LoginState::Failed { error: ApiErrorResponse::InternalError },
                },
                _ => LoginState::Failed { error: ApiErrorResponse::InternalError },
            },
            _ => state,
        }
    }

    /// Ends the session that holds `token`; a token that holds none is ignored.
    pub fn logout(&mut self, token: &String)
        requires
            old(self).wf(),
        ensures
            final(self).wf(),
            final(self).csrf_store == old(self).csrf_store,
            !final(self).session_store.has_token(token@),
            !old(self).session_store.has_token(token@) ==> final(self).session_store.sessions()
                == old(self).session_store.sessions(),
            old(self).session_store.has_token(token@) ==> exists|i: int|
                0 <= i < old(self).session_store.sessions().len()
                    && old(self).session_store.sessions()[i].token@ == token@
                    && final(self).session_store.sessions() == old(self).session_store.sessions().remove(i),
    {
        self.session_store.del_session(token);
    }
}

} // verus!
