use cyberscope::auth::{constant_time_eq, is_valid_token, AuthManager};

fn manager() -> AuthManager {
    AuthManager::new(
        "admin".to_owned(),
        "correct horse battery staple".to_owned(),
    )
}

fn token(n: u8) -> String {
    format!("{:064x}", n)
}

#[test]
fn valid_credentials_create_an_authenticatable_session() {
    let mut auth = manager();
    let (token, user) = auth
        .login("admin", "correct horse battery staple", token(1), 0)
        .expect("credentials should be accepted");

    assert_eq!(token.len(), 64);
    assert_eq!(user.username, "admin");
    assert_eq!(auth.authenticate(&token, 1), Some(user));
}

#[test]
fn invalid_credentials_do_not_create_a_session() {
    let mut auth = manager();

    assert!(
        auth.login("other", "correct horse battery staple", token(1), 0)
            .is_none()
    );
    assert!(auth.login("admin", "wrong password", token(2), 0).is_none());
}

#[test]
fn logout_revokes_the_session() {
    let mut auth = manager();
    let (token, _) = auth
        .login("admin", "correct horse battery staple", token(1), 0)
        .expect("credentials should be accepted");

    auth.logout(&token);

    assert_eq!(auth.authenticate(&token, 1), None);
}

#[test]
fn malformed_tokens_are_rejected() {
    let mut auth = manager();

    assert_eq!(auth.authenticate("not-a-session", 0), None);
    assert!(!constant_time_eq(b"secret", b"different"));
    assert!(constant_time_eq(b"same", b"same"));
    assert!(is_valid_token(&"aB".repeat(32)));
    assert!(!is_valid_token(&"g".repeat(64)));
}

#[test]
fn sessions_expire_after_their_lifetime() {
    let mut auth = manager();
    let (token, _) = auth
        .login("admin", "correct horse battery staple", token(1), 1_000)
        .unwrap();
    assert!(auth.authenticate(&token, 1_000 + 28_800_000 - 1).is_some());
    assert!(auth.authenticate(&token, 1_000 + 28_800_000).is_none());
    assert!(auth.authenticate(&token, 0).is_none());
}

#[test]
fn the_oldest_session_makes_room_for_a_new_one() {
    let mut auth = manager();
    for n in 0..64u8 {
        auth.login("admin", "correct horse battery staple", token(n), n as u64)
            .unwrap();
    }
    auth.login("admin", "correct horse battery staple", token(200), 100)
        .unwrap();
    assert!(auth.authenticate(&token(0), 101).is_none());
    assert!(auth.authenticate(&token(1), 101).is_some());
    assert!(auth.authenticate(&token(200), 101).is_some());
}

#[test]
fn sign_in_draws_a_well_formed_token_that_authenticates() {
    let mut auth = manager();
    assert!(auth.sign_in("admin", "wrong password", 0).is_none());
    let (token, user) = auth
        .sign_in("admin", "correct horse battery staple", 0)
        .unwrap();
    assert_eq!(user.username, "admin");
    assert!(is_valid_token(&token));
    assert_eq!(
        auth.authenticate(&token, 1).map(|user| user.username),
        Some("admin".to_owned())
    );
    let (second, _) = auth
        .sign_in("admin", "correct horse battery staple", 0)
        .unwrap();
    assert_ne!(token, second);
}
