//! Password sign-in: which requests pass, the outcome of a sign-in, and
//! the store of session tokens.

use vstd::prelude::*;
use crate::config::AuthMode;
use crate::text::str_eq;

verus! {

/// Name of the cookie that carries the session token.
pub fn session_cookie_name() -> (res: &'static str)
    ensures
        res@ == "session"@,
{
    "session"
}

/// What happens to a request.
#[derive(Debug, Clone, Copy, PartialEq, Eq, Structural)]
pub enum AuthAction {
    /// It is served.
    Proceed,
    /// It is answered 401 "Authentication required".
    Unauthorized,
    /// It is sent to the sign-in page.
    RedirectToLogin,
}

/// Requests that need no session: the sign-in page, static files and the
/// health check.
pub open spec fn is_public_path(path: Seq<char>) -> bool {
    path == "/login"@ || "/static/"@.is_prefix_of(path) || path == "/health"@
}

/// The decision for a request: everything passes without a password or
/// with a valid session; public paths pass; HTMX and API requests are
/// refused; the rest is sent to the sign-in page.
pub open spec fn auth_decision(password_set: bool, session_valid: bool, path: Seq<char>, is_htmx: bool) -> AuthAction {
    if !password_set || session_valid || is_public_path(path) {
        AuthAction::Proceed
    } else if is_htmx || "/api/"@.is_prefix_of(path) {
        AuthAction::Unauthorized
    } else {
        AuthAction::RedirectToLogin
    }
}

fn has_prefix(s: &str, prefix: &str) -> (res: bool)
    ensures
        res == prefix@.is_prefix_of(s@),
{
    let a = crate::text::chars_of(prefix);
    let b = crate::text::chars_of(s);
    if a.len() > b.len() {
        return false;
    }
    let mut i: usize = 0;
    while i < a.len()
        invariant
            a@ == prefix@,
            b@ == s@,
            a@.len() <= b@.len(),
            i <= a@.len(),
            forall|t: int| 0 <= t < i ==> a@[t] == b@[t],
        decreases a@.len() - i,
    {
        if a[i] != b[i] {
            return false;
        }
        i += 1;
    }
    assert(b@.take(a@.len() as int) =~= a@);
    true
}

/// Decides what happens to a request (see `auth_decision`).
pub fn auth_action(auth_mode: &AuthMode, session_valid: bool, path: &str, is_htmx: bool) -> (res: AuthAction)
    ensures
        res == auth_decision(auth_mode is Password, session_valid, path@, is_htmx),
{
    let password_set = match auth_mode {
        AuthMode::Password(_) => true,
        AuthMode::Unauthenticated => false,
    };
    if !password_set || session_valid {
        return AuthAction::Proceed;
    }
    if str_eq(path, "/login") || has_prefix(path, "/static/") || str_eq(path, "/health") {
        return AuthAction::Proceed;
    }
    if is_htmx || has_prefix(path, "/api/") {
        AuthAction::Unauthorized
    } else {
        AuthAction::RedirectToLogin
    }
}

// ---------------------------------------------------------------------------
// Sessions
// ---------------------------------------------------------------------------

/// Some token of `v` reads `t`.
pub open spec fn holds(v: Seq<String>, t: Seq<char>) -> bool {
    exists|k: int| 0 <= k < v.len() && (#[trigger] v[k])@ == t
}

proof fn lemma_holds_push(v: Seq<String>, x: String, t: Seq<char>)
    ensures
        holds(v.push(x), t) == (holds(v, t) || x@ == t),
{
    if holds(v, t) {
        let k = choose|k: int| 0 <= k < v.len() && (#[trigger] v[k])@ == t;
        assert(v.push(x)[k] == v[k]);
    }
    if holds(v.push(x), t) {
        let k = choose|k: int| 0 <= k < v.push(x).len() && (#[trigger] v.push(x)[k])@ == t;
        if k < v.len() {
            assert(v.push(x)[k] == v[k]);
        }
    }
    if x@ == t {
        assert(v.push(x)[v.len() as int] == x);
    }
}

/// The session tokens handed out and not yet revoked.
#[derive(Debug)]
pub struct SessionStore {
    tokens: Vec<String>,
}

impl SessionStore {
    /// The tokens held.
    pub closed spec fn view_set(&self) -> Set<Seq<char>> {
        Set::new(|t: Seq<char>| holds(self.tokens@, t))
    }

    pub fn new() -> (res: SessionStore)
        ensures
            res.view_set() == Set::<Seq<char>>::empty(),
    {
        let s = SessionStore { tokens: Vec::new() };
        assert(s.view_set() =~= Set::<Seq<char>>::empty());
        s
    }

    /// Whether `token` is held.
    pub fn contains(&self, token: &str) -> (res: bool)
        ensures
            res == self.view_set().contains(token@),
    {
        let mut i: usize = 0;
        while i < self.tokens.len()
            invariant
                i <= self.tokens@.len(),
                forall|k: int| 0 <= k < i ==> (#[trigger] self.tokens@[k])@ != token@,
            decreases self.tokens@.len() - i,
        {
            if str_eq(self.tokens[i].as_str(), token) {
                assert(self.tokens@[i as int]@ == token@);
                assert(holds(self.tokens@, token@));
                return true;
            }
            i += 1;
        }
        false
    }

    /// Holds `token` from now on.
    pub fn insert(&mut self, token: String)
        ensures
            final(self).view_set() == old(self).view_set().insert(token@),
    {
        let ghost before = self.tokens@;
        if !self.contains(token.as_str()) {
            let ghost tk = token;
            self.tokens.push(token);
            assert forall|t: Seq<char>| #[trigger] holds(self.tokens@, t) == (holds(before, t) || tk@ == t) by {
                lemma_holds_push(before, tk, t);
            }
            assert(self.view_set() =~= old(self).view_set().insert(tk@));
        } else {
            assert(old(self).view_set().insert(token@) =~= old(self).view_set());
        }
    }

    /// No longer holds `token`.
    pub fn remove(&mut self, token: &str)
        ensures
            final(self).view_set() == old(self).view_set().remove(token@),
    {
        let ghost before = self.tokens@;
        let mut kept: Vec<String> = Vec::new();
        let mut i: usize = 0;
        while i < self.tokens.len()
            invariant
                i <= self.tokens@.len(),
                self.tokens@ == before,
                forall|t: Seq<char>| #[trigger] holds(kept@, t) == (t != token@ && holds(before.take(i as int), t)),
            decreases self.tokens@.len() - i,
        {
            let ghost kb = kept@;
            assert(before.take(i + 1) =~= before.take(i as int).push(before[i as int]));
            if !str_eq(self.tokens[i].as_str(), token) {
                let x = self.tokens[i].clone();
                kept.push(x);
                assert forall|t: Seq<char>| #[trigger] holds(kept@, t) == (t != token@ && holds(before.take(i + 1), t)) by {
                    lemma_holds_push(kb, x, t);
                    lemma_holds_push(before.take(i as int), before[i as int], t);
                }
            } else {
                assert forall|t: Seq<char>| #[trigger] holds(kept@, t) == (t != token@ && holds(before.take(i + 1), t)) by {
                    lemma_holds_push(before.take(i as int), before[i as int], t);
                }
            }
            i += 1;
        }
        assert(before.take(before.len() as int) =~= before);
        self.tokens = kept;
        assert(self.view_set() =~= old(self).view_set().remove(token@));
    }
}

/// A token handed out at sign-in is held until sign-out, and not after.
pub proof fn lemma_sign_in_then_out(held: Set<Seq<char>>, token: Seq<char>)
    ensures
        held.insert(token).contains(token),
        !held.insert(token).remove(token).contains(token),
{
}

// ---------------------------------------------------------------------------
// Sign-in and sign-out
// ---------------------------------------------------------------------------

/// Whether `password` verifies against the Argon2 PHC string `hash`. The
/// answer depends on the two texts alone: the salt and the parameters are
/// written in the hash.
pub uninterp spec fn argon2_verifies(password: Seq<char>, hash: Seq<char>) -> bool;

/// `argon2::PasswordHash::new(hash)`, then
/// `Argon2::default().verify_password(password, &parsed)`: `true` when the
/// hash parses and the password verifies against it, `false` otherwise.
/// Its answer is named `argon2_verifies`; the work it does follows the
/// parameters the hash carries, which is not stated.
#[verifier::external_body]
fn verify_password(password: &str, hash: &str) -> (res: bool)
    ensures
        res == argon2_verifies(password@, hash@),
{
    match argon2::PasswordHash::new(hash) {
        Ok(parsed) => argon2::PasswordVerifier::verify_password(&argon2::Argon2::default(), password.as_bytes(), &parsed).is_ok(),
        Err(_) => false,
    }
}

/// The outcome of a sign-in.
#[derive(Debug, Clone, Copy, PartialEq, Eq, Structural)]
pub enum LoginOutcome {
    /// No password is set: the visitor is sent home.
    NotRequired,
    /// The password is right: a session starts and the visitor is sent home.
    SignedIn,
    /// The password is wrong: the sign-in page shows "Invalid password".
    InvalidPassword,
}

pub open spec fn login_result(auth_mode: AuthMode, password: Seq<char>) -> LoginOutcome {
    match auth_mode {
        AuthMode::Unauthenticated => LoginOutcome::NotRequired,
        AuthMode::Password(h) => if argon2_verifies(password, h@) {
            LoginOutcome::SignedIn
        } else {
            LoginOutcome::InvalidPassword
        },
    }
}

/// Handles a sign-in with `password`; on success `new_token` (fresh and
/// random) becomes a held session.
pub fn login_submit(auth_mode: &AuthMode, password: &str, sessions: &mut SessionStore, new_token: String) -> (res:
    LoginOutcome)
    ensures
        res == login_result(*auth_mode, password@),
        res == LoginOutcome::SignedIn ==> final(sessions).view_set() == old(sessions).view_set().insert(new_token@),
        res != LoginOutcome::SignedIn ==> final(sessions).view_set() == old(sessions).view_set(),
{
    let hash = match auth_mode {
        AuthMode::Unauthenticated => {
            return LoginOutcome::NotRequired;
        },
        AuthMode::Password(h) => h,
    };
    if verify_password(password, hash.as_str()) {
        sessions.insert(new_token);
        LoginOutcome::SignedIn
    } else {
        LoginOutcome::InvalidPassword
    }
}

/// Handles a sign-out: the session of the cookie, if any, ends.
pub fn logout(sessions: &mut SessionStore, token: Option<&str>)
    ensures
        final(sessions).view_set() == match token {
            Some(t) => old(sessions).view_set().remove(t@),
            None => old(sessions).view_set(),
        },
{
    if let Some(t) = token {
        sessions.remove(t);
    }
}

} // verus!
