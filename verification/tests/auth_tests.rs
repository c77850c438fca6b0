use argon2::password_hash::{PasswordHasher, SaltString};
use solvency::auth::{auth_action, login_submit, logout, session_cookie_name, AuthAction, LoginOutcome, SessionStore};
use solvency::config::AuthMode;

fn hash_of(password: &str) -> String {
    let salt = SaltString::from_b64("c29tZXNhbHRzb21lc2FsdA").unwrap();
    argon2::Argon2::default().hash_password(password.as_bytes(), &salt).unwrap().to_string()
}

#[test]
fn requests_pass_or_are_refused() {
    let pw = AuthMode::Password("$argon2id$x".to_string());
    assert_eq!(auth_action(&AuthMode::Unauthenticated, false, "/transactions", false), AuthAction::Proceed);
    assert_eq!(auth_action(&pw, true, "/transactions", false), AuthAction::Proceed);
    assert_eq!(auth_action(&pw, false, "/login", false), AuthAction::Proceed);
    assert_eq!(auth_action(&pw, false, "/static/app.css", true), AuthAction::Proceed);
    assert_eq!(auth_action(&pw, false, "/health", false), AuthAction::Proceed);
    assert_eq!(auth_action(&pw, false, "/api/flow", false), AuthAction::Unauthorized);
    assert_eq!(auth_action(&pw, false, "/transactions", true), AuthAction::Unauthorized);
    assert_eq!(auth_action(&pw, false, "/transactions", false), AuthAction::RedirectToLogin);
    assert_eq!(auth_action(&pw, false, "/loginx", false), AuthAction::RedirectToLogin);
    assert_eq!(session_cookie_name(), "session");
}

#[test]
fn sign_in_and_out() {
    let mode = AuthMode::Password(hash_of("hunter2"));
    let mut sessions = SessionStore::new();
    assert_eq!(login_submit(&mode, "wrong", &mut sessions, "t1".to_string()), LoginOutcome::InvalidPassword);
    assert!(!sessions.contains("t1"));
    assert_eq!(login_submit(&mode, "hunter2", &mut sessions, "t2".to_string()), LoginOutcome::SignedIn);
    assert!(sessions.contains("t2"));
    assert_eq!(
        login_submit(&AuthMode::Unauthenticated, "x", &mut sessions, "t3".to_string()),
        LoginOutcome::NotRequired
    );
    assert!(!sessions.contains("t3"));
    let broken = AuthMode::Password("not a hash".to_string());
    assert_eq!(login_submit(&broken, "hunter2", &mut sessions, "t4".to_string()), LoginOutcome::InvalidPassword);
    logout(&mut sessions, Some("t2"));
    assert!(!sessions.contains("t2"));
    logout(&mut sessions, None);
}

#[test]
fn session_store_holds_each_token_once() {
    let mut s = SessionStore::new();
    s.insert("a".to_string());
    s.insert("a".to_string());
    s.insert("b".to_string());
    assert!(s.contains("a") && s.contains("b"));
    s.remove("a");
    assert!(!s.contains("a"));
    assert!(s.contains("b"));
}
