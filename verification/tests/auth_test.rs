use stream_backend::auth::{
    admin_auth_decision, admin_claims_at, authenticate_admin, authenticate_admin_at, bearer_token,
    TOKEN_LEEWAY_SECS,
    create_admin_token, create_admin_token_at, login, login_at, AdminClaims, ADMIN_TOKEN_TTL_SECS,
};
use stream_backend::error::ErrorKind;

const SECRET: &str = "a-test-jwt-secret-that-is-long-enough";

#[test]
fn bearer_header_wins_over_query_token() {
    assert_eq!(
        bearer_token(Some("Bearer abc"), Some("q".to_string())),
        Some("abc".to_string())
    );
    assert_eq!(bearer_token(Some("Basic abc"), Some("q".to_string())), Some("q".to_string()));
    assert_eq!(bearer_token(None, Some("q".to_string())), Some("q".to_string()));
    assert_eq!(bearer_token(Some("Bearer "), None), Some(String::new()));
    assert_eq!(bearer_token(Some("bearer abc"), None), None);
    assert_eq!(bearer_token(None, None), None);
}

#[test]
fn missing_and_invalid_tokens_are_unauthorised() {
    let e = admin_auth_decision(false, None).unwrap_err();
    assert_eq!(e.kind, ErrorKind::Unauthorized);
    assert_eq!(e.message, "Unauthorised");
    assert_eq!(e.status(), 401);
    let e = admin_auth_decision(true, None).unwrap_err();
    assert_eq!(e.message, "Invalid or expired token");
    let ok = admin_auth_decision(true, Some(AdminClaims { admin: true, exp: 5 })).unwrap();
    assert_eq!(ok.0, AdminClaims { admin: true, exp: 5 });
}

#[test]
fn admin_claims_expire_after_seven_days() {
    let c = admin_claims_at(1000);
    assert!(c.admin);
    assert_eq!(c.exp, 1000 + 604800);
    assert_eq!(ADMIN_TOKEN_TTL_SECS, 604800);
}

#[test]
fn issued_token_authenticates() {
    let token = create_admin_token(SECRET).unwrap();
    let header = format!("Bearer {}", token);
    let auth = authenticate_admin(Some(&header), None, SECRET).unwrap();
    assert!(auth.0.admin);
    // Through the query parameter too.
    assert!(authenticate_admin(None, Some(token.clone()), SECRET).is_ok());
    // Another secret does not verify it.
    let e = authenticate_admin(Some(&header), None, "another-secret-of-enough-length-000").unwrap_err();
    assert_eq!(e.message, "Invalid or expired token");
    let e = authenticate_admin(None, None, SECRET).unwrap_err();
    assert_eq!(e.message, "Unauthorised");
}

#[test]
fn expired_token_is_rejected() {
    let token = create_admin_token_at(SECRET, 1000).unwrap();
    let e = authenticate_admin(None, Some(token), SECRET).unwrap_err();
    assert_eq!(e.kind, ErrorKind::Unauthorized);
    assert_eq!(e.message, "Invalid or expired token");
}

#[test]
fn login_returns_400_without_password() {
    let hash = bcrypt::hash("test-admin-password", 4).unwrap();
    let e = login(None, &hash, SECRET).unwrap_err();
    assert_eq!(e.status(), 400);
    assert_eq!(e.message, "Password required");
}

#[test]
fn login_returns_401_wrong_password() {
    let hash = bcrypt::hash("test-admin-password", 4).unwrap();
    let e = login(Some("wrong".to_string()), &hash, SECRET).unwrap_err();
    assert_eq!(e.status(), 401);
    assert_eq!(e.message, "Wrong password");
    // A malformed hash counts as a mismatch.
    let e = login(Some("wrong".to_string()), "not-a-hash", SECRET).unwrap_err();
    assert_eq!(e.message, "Wrong password");
}

#[test]
fn login_returns_token_on_correct_password() {
    let hash = bcrypt::hash("test-admin-password", 4).unwrap();
    let token = login(Some("test-admin-password".to_string()), &hash, SECRET).unwrap();
    assert!(authenticate_admin(None, Some(token), SECRET).is_ok());
}

#[test]
fn login_without_admin_hash_is_misconfigured() {
    let e = login_at(Some("x".to_string()), "", SECRET, 1000).unwrap_err();
    assert_eq!(e.kind, ErrorKind::Internal);
    assert_eq!(e.message, "Server misconfigured");
    assert_eq!(e.public_message(), "Internal server error");
}

#[test]
fn bcrypt_verdict_decides_login() {
    let hash = bcrypt::hash("s3cret", 4).unwrap();
    assert!(login_at(Some("s3cret".to_string()), &hash, SECRET, 1000).is_ok());
    let e = login_at(Some("nope".to_string()), &hash, SECRET, 1000).unwrap_err();
    assert_eq!(e.message, "Wrong password");
    let e = login_at(Some("s3cret".to_string()), "garbage", SECRET, 1000).unwrap_err();
    assert_eq!(e.message, "Wrong password");
}

#[test]
fn admin_endpoint_rejects_token_without_admin_claim() {
    let exp = (std::time::SystemTime::now()
        .duration_since(std::time::UNIX_EPOCH)
        .unwrap()
        .as_secs()
        + 3600) as usize;
    let mut claims = serde_json::Map::new();
    claims.insert("admin".to_string(), serde_json::Value::Bool(false));
    claims.insert("exp".to_string(), serde_json::Value::from(exp as u64));
    let token = jsonwebtoken::encode(
        &jsonwebtoken::Header::new(jsonwebtoken::Algorithm::HS256),
        &claims,
        &jsonwebtoken::EncodingKey::from_secret(SECRET.as_bytes()),
    )
    .unwrap();
    let header = format!("Bearer {token}");
    let e = authenticate_admin(Some(&header), None, SECRET).unwrap_err();
    assert_eq!(e.status(), 401);
    assert_eq!(e.message, "Not an admin token");
    let e = admin_auth_decision(true, Some(AdminClaims { admin: false, exp: 5 })).unwrap_err();
    assert_eq!(e.kind, ErrorKind::Unauthorized);
}

#[test]
fn issued_token_lives_seven_days_plus_leeway() {
    let token = create_admin_token_at(SECRET, 1000).unwrap();
    let exp = 1000 + 604800;
    assert_eq!(TOKEN_LEEWAY_SECS, 60);
    let a = authenticate_admin_at(None, Some(token.clone()), SECRET, 1000).unwrap();
    assert_eq!(a.0, AdminClaims { admin: true, exp });
    assert!(authenticate_admin_at(None, Some(token.clone()), SECRET, exp as u64 + 60).is_ok());
    let e = authenticate_admin_at(None, Some(token.clone()), SECRET, exp as u64 + 61).unwrap_err();
    assert_eq!(e.message, "Invalid or expired token");
    let e = authenticate_admin_at(None, Some(token), "some-other-secret-of-enough-length", 1000)
        .unwrap_err();
    assert_eq!(e.message, "Invalid or expired token");
    let e = authenticate_admin_at(None, Some("not.a.jwt".to_string()), SECRET, 1000).unwrap_err();
    assert_eq!(e.status(), 401);
}
