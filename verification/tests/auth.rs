use phone_sync_server::auth::{hash_password, request_token, token_from_query, verify_password};

#[test]
fn a_password_verifies_against_its_own_hash_only() {
    let hash = hash_password("modestMouse1!");
    assert!(hash.starts_with("$argon2"));
    assert!(verify_password("modestMouse1!", &hash));
    assert!(!verify_password("wrong", &hash));
    assert!(!verify_password("modestMouse1!", "not-a-phc-string"));
    // A fresh salt each time.
    assert_ne!(hash, hash_password("modestMouse1!"));
}

#[test]
fn the_token_comes_from_the_bearer_header_then_the_query() {
    assert_eq!(request_token(Some("Bearer abc"), Some("token=def")).as_deref(), Some("abc"));
    assert_eq!(request_token(Some("Basic abc"), Some("x=1&token=def")).as_deref(), Some("def"));
    assert_eq!(request_token(None, None), None);
    assert_eq!(request_token(Some("bearer abc"), None), None);
    assert_eq!(token_from_query(Some("a=b&token=t1&token=t2")).as_deref(), Some("t1"));
    assert_eq!(token_from_query(Some("tokenx=1")), None);
}
