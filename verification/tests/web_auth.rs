use cyberscope::web::auth::{login_input_ok, session_cookie, session_token, EXPIRED_SESSION_COOKIE};

#[test]
fn extracts_the_named_cookie_from_multiple_values() {
    let headers = vec!["theme=dark; cyberscope_session=abc123".to_owned()];

    assert_eq!(session_token(&headers).as_deref(), Some("abc123"));
}

#[test]
fn session_cookie_is_http_only_strict_and_scoped_to_root() {
    let value = session_cookie(&"a".repeat(64));

    assert!(value.starts_with("cyberscope_session="));
    assert!(value.contains("Path=/"));
    assert!(value.contains("HttpOnly"));
    assert!(value.contains("SameSite=Strict"));
    assert!(value.contains("Max-Age=28800"));
}

#[test]
fn expired_cookie_clears_the_session() {
    let value = EXPIRED_SESSION_COOKIE.to_owned();

    assert!(value.contains("cyberscope_session=;"));
    assert!(value.contains("Max-Age=0"));
}

#[test]
fn the_first_session_cookie_across_headers_wins() {
    let headers = vec![
        "theme=dark".to_owned(),
        "x=1;cyberscope_session=first".to_owned(),
        "cyberscope_session=second".to_owned(),
    ];
    assert_eq!(session_token(&headers).as_deref(), Some("first"));
    assert_eq!(session_token(&["a=b; c".to_owned()]), None);
    assert_eq!(session_token(&[]), None);
}

#[test]
fn oversized_login_input_is_refused() {
    assert!(login_input_ok("admin", "pw"));
    assert!(!login_input_ok(&"a".repeat(65), "pw"));
    assert!(!login_input_ok("admin", &"p".repeat(1025)));
}
