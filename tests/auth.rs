use chat_backend::{bearer_token, get_user_from_token, validate_token, ApiError, Session, User, UserAccount};

fn session_for(user: &str) -> Session {
    Session { id: "sid".to_string(), token: "tok".to_string(), user_id: user.to_string(), expires_at_ms: 0, name: None }
}

fn account(id: &str) -> UserAccount {
    UserAccount { id: id.to_string(), username: "alice".to_string(), password_hash: "h".to_string() }
}

#[test]
fn bearer_header_forms() {
    assert_eq!(bearer_token("Bearer abc").as_deref(), Some("abc"));
    assert_eq!(bearer_token("  Bearer\tabc  ").as_deref(), Some("abc"));
    assert_eq!(bearer_token("Basic abc"), None);
    assert_eq!(bearer_token("Bearer"), None);
    assert_eq!(bearer_token("Bearer a b"), None);
    assert_eq!(bearer_token(""), None);
}

#[test]
fn token_resolution() {
    let u = User { account: account("a"), profile: None };
    let (sid, user) = get_user_from_token(Some(session_for("a")), Some(u.clone())).unwrap();
    assert_eq!(sid, "sid");
    assert_eq!(user.account.id, "a");
    assert!(matches!(get_user_from_token(None, Some(u)), Err(ApiError::Unauthorized)));
    assert!(matches!(get_user_from_token(Some(session_for("a")), None), Err(ApiError::Unauthorized)));
    let auth = validate_token(Some(session_for("a")), Some(account("a"))).unwrap();
    assert_eq!(auth.username, "alice");
    assert_eq!(auth.session.id, "sid");
    assert!(matches!(validate_token(Some(session_for("a")), None), Err(ApiError::Unauthorized)));
}

#[test]
fn bearer_with_unicode_space() {
    assert_eq!(bearer_token("Bearer\u{3000}abc").as_deref(), Some("abc"));
    assert_eq!(bearer_token("Bearer\u{a0}a\u{2003}b"), None);
}
