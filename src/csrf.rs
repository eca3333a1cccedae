//! One-time anti-forgery tokens that bind an authorization redirect to its
//! callback. A token expires a fixed time after it is issued; expired tokens
//! are dropped whenever a new one is issued.
use vstd::prelude::*;

verus! {

/// How long an issued token stays valid, in seconds.
pub const CSRF_TOKEN_TTL_SECS: u64 = 600;

/// Relies on rand::random for 128 random bits, written as 32 hex digits.
/// Nothing is promised of the value.
#[verifier::external_body]
pub(crate) fn random_token() -> (r: String) {
    format!("{:032x}", rand::random::<u128>())
}

/// When a token issued at `now` expires: `CSRF_TOKEN_TTL_SECS` later, or at
/// the last representable second.
pub open spec fn expiry_after(now: u64) -> u64 {
    if now + CSRF_TOKEN_TTL_SECS <= u64::MAX {
        (now + CSRF_TOKEN_TTL_SECS) as u64
    } else {
        u64::MAX
    }
}

/// Whether `token` is accepted at `now` by a store whose pending tokens, each
/// with its expiry, are `pending`.
pub open spec fn accepts(pending: Map<Seq<char>, u64>, token: Seq<char>, now: u64) -> bool {
    pending.contains_key(token) && now < pending[token]
}

/// The tokens of `pending` that have not expired at `now`.
pub open spec fn unexpired(pending: Map<Seq<char>, u64>, now: u64) -> Map<Seq<char>, u64> {
    Map::new(|t: Seq<char>| pending.contains_key(t) && now < pending[t], |t: Seq<char>| pending[t])
}

/// The map from token to expiry that a sequence of entries stands for.
pub open spec fn token_map(s: Seq<(String, u64)>) -> Map<Seq<char>, u64>
    decreases s.len(),
{
    if s.len() == 0 {
        Map::empty()
    } else {
        token_map(s.drop_last()).insert(s.last().0@, s.last().1)
    }
}

pub open spec fn keys_distinct(s: Seq<(String, u64)>) -> bool {
    forall|i: int, j: int| 0 <= i < j < s.len() ==> s[i].0@ != s[j].0@
}

proof fn lemma_token_map_dom(s: Seq<(String, u64)>)
    ensures
        forall|t: Seq<char>| #[trigger] token_map(s).contains_key(t) <==> exists|i: int| 0 <= i < s.len() && s[i].0@ == t,
    decreases s.len(),
{
    if s.len() > 0 {
        let d = s.drop_last();
        lemma_token_map_dom(d);
        assert forall|t: Seq<char>| #[trigger] token_map(s).contains_key(t) <==> exists|i: int| 0 <= i < s.len() && s[i].0@ == t by {
            if token_map(s).contains_key(t) && t != s.last().0@ {
                assert(token_map(d).contains_key(t));
                let i = choose|i: int| 0 <= i < d.len() && d[i].0@ == t;
                assert(s[i] == d[i]);
            }
            if exists|i: int| 0 <= i < s.len() && s[i].0@ == t {
                let i = choose|i: int| 0 <= i < s.len() && s[i].0@ == t;
                if i < d.len() {
                    assert(d[i] == s[i]);
                    assert(token_map(d).contains_key(t));
                }
            }
        }
    }
}

proof fn lemma_token_map_value(s: Seq<(String, u64)>, i: int)
    requires
        keys_distinct(s),
        0 <= i < s.len(),
    ensures
        token_map(s).contains_key(s[i].0@),
        token_map(s)[s[i].0@] == s[i].1,
    decreases s.len(),
{
    if i < s.len() - 1 {
        let d = s.drop_last();
        assert(d[i] == s[i]);
        lemma_token_map_value(d, i);
        assert(s[i].0@ != s.last().0@);
    }
}

proof fn lemma_token_map_remove(s: Seq<(String, u64)>, i: int)
    requires
        keys_distinct(s),
        0 <= i < s.len(),
    ensures
        keys_distinct(s.remove(i)),
        token_map(s.remove(i)) == token_map(s).remove(s[i].0@),
    decreases s.len(),
{
    let d = s.drop_last();
    let k = s[i].0@;
    if i == s.len() - 1 {
        assert(s.remove(i) =~= d);
        lemma_token_map_dom(d);
        assert(!token_map(d).contains_key(k));
        assert(token_map(s).remove(k) =~= token_map(d));
    } else {
        assert(d[i] == s[i]);
        lemma_token_map_remove(d, i);
        assert(s.remove(i).drop_last() =~= d.remove(i));
        assert(s.remove(i).last() == s.last());
        assert(s.last().0@ != k);
        assert(token_map(s.remove(i)) =~= token_map(s).remove(k));
    }
}

/// The pending (issued, not yet consumed) CSRF tokens, with their expiry.
pub struct CsrfStore {
    tokens: Vec<(String, u64)>,
}

impl CsrfStore {
    /// Each pending token with the second at which it expires.
    pub closed spec fn pending(&self) -> Map<Seq<char>, u64> {
        token_map(self.tokens@)
    }

    /// A token is held at most once.
    pub closed spec fn wf(&self) -> bool {
        keys_distinct(self.tokens@)
    }

    pub fn new() -> (r: CsrfStore)
        ensures
            r.wf(),
            r.pending() == Map::<Seq<char>, u64>::empty(),
    {
        CsrfStore { tokens: Vec::new() }
    }

    fn position(&self, token: &String) -> (r: Option<usize>)
        ensures
            match r {
                Some(i) => i < self.tokens@.len() && self.tokens@[i as int].0@ == token@,
                None => forall|j: int| 0 <= j < self.tokens@.len() ==> self.tokens@[j].0@ != token@,
            },
    {
        let mut i: usize = 0;
        while i < self.tokens.len()
            invariant
                i <= self.tokens@.len(),
                forall|j: int| 0 <= j < i ==> self.tokens@[j].0@ != token@,
            decreases self.tokens@.len() - i,
        {
            if self.tokens[i].0 == *token {
                return Some(i);
            }
            i = i + 1;
        }
        None
    }

    /// Records `token` as pending until `expires_at`.
    pub fn record_csrf_token(&mut self, token: String, expires_at: u64)
        requires
            old(self).wf(),
        ensures
            final(self).wf(),
            final(self).pending() == old(self).pending().insert(token@, expires_at),
    {
        let ghost k = token@;
        if let Some(i) = self.position(&token) {
            proof {
                lemma_token_map_remove(self.tokens@, i as int);
            }
            self.tokens.remove(i);
        }
        let ghost mid = self.tokens@;
        proof {
            lemma_token_map_dom(mid);
            assert(!token_map(mid).contains_key(k));
        }
        assert forall|j: int| 0 <= j < mid.len() implies mid[j].0@ != k by {
            assert(token_map(mid).contains_key(mid[j].0@));
        }
        self.tokens.push((token, expires_at));
        assert(self.tokens@.drop_last() =~= mid);
        assert(self.pending() =~= old(self).pending().insert(k, expires_at));
    }

    /// Drops the tokens that have expired at `now`.
    pub fn reap_expired(&mut self, now: u64)
        requires
            old(self).wf(),
        ensures
            final(self).wf(),
            final(self).pending() == unexpired(old(self).pending(), now),
    {
        let mut kept: Vec<(String, u64)> = Vec::new();
        let mut i: usize = 0;
        while i < self.tokens.len()
            invariant
                i <= self.tokens@.len(),
                keys_distinct(self.tokens@),
                keys_distinct(kept@),
                token_map(kept@) == unexpired(token_map(self.tokens@.take(i as int)), now),
            decreases self.tokens@.len() - i,
        {
            let ghost s = self.tokens@;
            let ghost before = token_map(s.take(i as int));
            let ghost k = s[i as int].0@;
            proof {
                assert(s.take(i + 1).drop_last() =~= s.take(i as int));
                lemma_token_map_dom(s.take(i as int));
                lemma_token_map_dom(kept@);
                assert(!before.contains_key(k));
            }
            if now < self.tokens[i].1 {
                let ghost prev = kept@;
                kept.push((self.tokens[i].0.clone(), self.tokens[i].1));
                proof {
                    assert(kept@.drop_last() =~= prev);
                    assert(!token_map(prev).contains_key(k));
                    assert forall|a: int, b: int| 0 <= a < b < kept@.len() implies kept@[a].0@ != kept@[b].0@ by {
                        if b == prev.len() {
                            assert(token_map(prev).contains_key(prev[a].0@));
                        } else {
                            assert(prev[a] == kept@[a] && prev[b] == kept@[b]);
                        }
                    }
                    assert(token_map(kept@) =~= unexpired(token_map(s.take(i + 1)), now));
                }
            } else {
                assert(token_map(kept@) =~= unexpired(token_map(s.take(i + 1)), now));
            }
            i = i + 1;
        }
        assert(self.tokens@.take(self.tokens@.len() as int) =~= self.tokens@);
        self.tokens = kept;
    }

    /// Drops the expired tokens, then issues a fresh random token, valid
    /// until `CSRF_TOKEN_TTL_SECS` after `now`.
    pub fn generate_csrf_token(&mut self, now: u64) -> (r: String)
        requires
            old(self).wf(),
        ensures
            final(self).wf(),
            final(self).pending() == unexpired(old(self).pending(), now).insert(r@, expiry_after(now)),
    {
        self.reap_expired(now);
        let token = random_token();
        let r = token.clone();
        self.record_csrf_token(token, now.saturating_add(CSRF_TOKEN_TTL_SECS));
        r
    }

    /// Checks whether `token` is pending and unexpired at `now`, and consumes
    /// it in the same step: a token is accepted at most once.
    pub fn check_csrf_token(&mut self, token: &String, now: u64) -> (r: bool)
        requires
            old(self).wf(),
        ensures
            final(self).wf(),
            r == accepts(old(self).pending(), token@, now),
            final(self).pending() == old(self).pending().remove(token@),
    {
        match self.position(token) {
            None => {
                proof {
                    lemma_token_map_dom(self.tokens@);
                }
                assert(self.pending() =~= old(self).pending().remove(token@));
                false
            },
            Some(i) => {
                let expires_at = self.tokens[i].1;
                proof {
                    lemma_token_map_value(self.tokens@, i as int);
                    lemma_token_map_remove(self.tokens@, i as int);
                }
                self.tokens.remove(i);
                now < expires_at
            },
        }
    }
}

/// A freshly issued token is accepted by a check before it expires; the
/// check consumes it, so every later check refuses it, and once refused it
/// stays refused.
pub proof fn lemma_token_single_use(pending: Map<Seq<char>, u64>, token: Seq<char>, expires_at: u64, now: u64)
    requires
        now < expires_at,
    ensures
        accepts(pending.insert(token, expires_at), token, now),
        forall|later: u64| !#[trigger] accepts(pending.insert(token, expires_at).remove(token), token, later),
        forall|m: Map<Seq<char>, u64>, later: u64| !m.contains_key(token) ==> !#[trigger] accepts(m.remove(token), token, later),
{
}

} // verus!
