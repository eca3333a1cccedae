//! Live login sessions, keyed by an opaque random token.
use vstd::prelude::*;
use crate::csrf::random_token;

verus! {

/// The identity of a logged-in user, as the identity provider reports it.
pub struct CurrentUser {
    pub id: u64,
    pub name: String,
    pub avatar: Option<String>,
}

/// Access and refresh token material obtained from the identity provider.
pub struct Credentials {
    pub access_token: String,
    pub refresh_token: Option<String>,
    pub expires_in_secs: Option<u64>,
}

/// A session binds an opaque token to a resolved identity and its credentials.
/// A session lives until it is deleted.
pub struct Session {
    pub token: String,
    pub user: CurrentUser,
    pub credentials: Credentials,
}

pub(crate) fn copy_opt_string(s: &Option<String>) -> (r: Option<String>)
    ensures
        r == *s,
{
    match s {
        Some(v) => Some(v.clone()),
        None => None,
    }
}

impl CurrentUser {
    pub fn copy(&self) -> (r: CurrentUser)
        ensures
            r == *self,
    {
        CurrentUser { id: self.id, name: self.name.clone(), avatar: copy_opt_string(&self.avatar) }
    }
}

impl Credentials {
    pub fn copy(&self) -> (r: Credentials)
        ensures
            r == *self,
    {
        Credentials {
            access_token: self.access_token.clone(),
            refresh_token: copy_opt_string(&self.refresh_token),
            expires_in_secs: self.expires_in_secs,
        }
    }
}

impl Session {
    pub fn copy(&self) -> (r: Session)
        ensures
            r == *self,
    {
        Session { token: self.token.clone(), user: self.user.copy(), credentials: self.credentials.copy() }
    }
}

/// The live sessions.
pub struct SessionStore {
    sessions: Vec<Session>,
}

impl SessionStore {
    /// The live sessions, in order of creation.
    pub closed spec fn sessions(&self) -> Seq<Session> {
        self.sessions@
    }

    /// No two live sessions share a token.
    pub open spec fn wf(&self) -> bool {
        forall|i: int, j: int|
            0 <= i < j < self.sessions().len() ==> self.sessions()[i].token@ != self.sessions()[j].token@
    }

    pub open spec fn has_token(&self, token: Seq<char>) -> bool {
        exists|i: int| 0 <= i < self.sessions().len() && #[trigger] self.sessions()[i].token@ == token
    }

    pub fn new() -> (r: SessionStore)
        ensures
            r.wf(),
            r.sessions() == Seq::<Session>::empty(),
    {
        SessionStore { sessions: Vec::new() }
    }

    fn position(&self, token: &String) -> (r: Option<usize>)
        ensures
            match r {
                Some(i) => i < self.sessions().len() && self.sessions()[i as int].token@ == token@,
                None => !self.has_token(token@),
            },
    {
        let mut i: usize = 0;
        while i < self.sessions.len()
            invariant
                i <= self.sessions@.len(),
                forall|j: int| 0 <= j < i ==> self.sessions@[j].token@ != token@,
            decreases self.sessions@.len() - i,
        {
            if self.sessions[i].token == *token {
                return Some(i);
            }
            i = i + 1;
        }
        None
    }

    /// Stores a session under `token`, unless a live session already holds it.
    pub fn insert_session(&mut self, token: String, user: CurrentUser, credentials: Credentials) -> (r: Option<Session>)
        requires
            old(self).wf(),
        ensures
            final(self).wf(),
            r is None <==> old(self).has_token(token@),
            r is None ==> final(self).sessions() == old(self).sessions(),
            r matches Some(s) ==> s == (Session { token, user, credentials })
                && final(self).sessions() == old(self).sessions().push(s),
    {
        if self.position(&token).is_some() {
            return None;
        }
        let s = Session { token, user, credentials };
        let r = s.copy();
        self.sessions.push(s);
        Some(r)
    }

    /// Creates a session for `user` under a fresh random token.
    /// Fails, leaving the store as it was, when the drawn token is already
    /// live; a store without live sessions always succeeds.
    pub fn create_session(&mut self, user: CurrentUser, credentials: Credentials) -> (r: Option<Session>)
        requires
            old(self).wf(),
        ensures
            final(self).wf(),
            r is None ==> old(self).sessions().len() > 0,
            r is None ==> final(self).sessions() == old(self).sessions(),
            r matches Some(s) ==> s.user == user && s.credentials == credentials
                && !old(self).has_token(s.token@)
                && final(self).sessions() == old(self).sessions().push(s),
    {
        let token = random_token();
        self.insert_session(token, user, credentials)
    }

    /// The live session that holds `token`, if any.
    pub fn get_session(&self, token: &String) -> (r: Option<Session>)
        requires
            self.wf(),
        ensures
            r is Some <==> self.has_token(token@),
            r matches Some(s) ==> s.token@ == token@ && self.sessions().contains(s),
    {
        match self.position(token) {
            Some(i) => Some(self.sessions[i].copy()),
            None => None,
        }
    }

    /// Removes the session that holds `token`; nothing happens when none does.
    pub fn del_session(&mut self, token: &String)
        requires
            old(self).wf(),
        ensures
            final(self).wf(),
            !final(self).has_token(token@),
            !old(self).has_token(token@) ==> final(self).sessions() == old(self).sessions(),
            old(self).has_token(token@) ==> exists|i: int|
                0 <= i < old(self).sessions().len() && old(self).sessions()[i].token@ == token@
                    && final(self).sessions() == old(self).sessions().remove(i),
    {
        if let Some(i) = self.position(token) {
            let ghost before = self.sessions@;
            self.sessions.remove(i);
            assert forall|k: int| 0 <= k < self.sessions@.len() implies #[trigger] self.sessions@[k].token@ != token@ by {
                if k < i {
                    assert(self.sessions@[k] == before[k]);
                } else {
                    assert(self.sessions@[k] == before[k + 1]);
                }
            }
        }
    }
}

} // verus!
