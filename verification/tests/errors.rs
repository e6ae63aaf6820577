use bittuly::hashing::{BcryptHasher, HashError, PlainTextHasher};
use bittuly::session::{create_access_token, create_pending_token, decode_claims, decode_pending_token, TokenError};
use bittuly::users::{
    begin_signup, generate_otp, hash_signup, hash_update, login_failure_status, signup_failure_status,
    verify_otp_failure_status, CreateUserPayload, RepoError, ServiceError, UpdateUserPayload,
};

const SECRET: &str = "error-test-secret";

fn now_secs() -> u64 {
    bittuly::ids::now().secs as u64
}

fn payload() -> CreateUserPayload {
    CreateUserPayload {
        username: "someone".to_string(),
        email: "someone@example.com".to_string(),
        password: "password123".to_string(),
    }
}

#[test]
fn generated_codes_have_six_digits() {
    for _ in 0..50 {
        let otp = generate_otp();
        assert_eq!(otp.len(), 6);
        assert!(otp.chars().all(|c| c.is_ascii_digit()));
        assert_ne!(otp.as_bytes()[0], b'0');
    }
}

#[test]
fn hashing_failure_is_reported() {
    let err = begin_signup(false, payload(), &BcryptHasher { cost: 3 }).err().unwrap();
    assert!(matches!(err, ServiceError::Hash(HashError::Bcrypt)));
    assert_eq!(err.message(), "password hashing failed");
    assert_eq!(signup_failure_status(&err), 500);
    let err = hash_signup(payload(), &BcryptHasher { cost: 32 }).err().unwrap();
    assert!(matches!(err, ServiceError::Hash(_)));
    let update = UpdateUserPayload { username: None, email: None, password: Some("pw".to_string()) };
    assert!(hash_update(update, &BcryptHasher { cost: 2 }).is_err());
    // Without a new password nothing is hashed.
    let update = UpdateUserPayload { username: Some("n".to_string()), email: None, password: None };
    let kept = hash_update(update, &BcryptHasher { cost: 2 }).ok().unwrap();
    assert_eq!(kept.username.as_deref(), Some("n"));
    assert_eq!(kept.password, None);
}

#[test]
fn registered_email_is_refused_before_hashing() {
    let err = begin_signup(true, payload(), &BcryptHasher { cost: 3 }).err().unwrap();
    assert!(matches!(err, ServiceError::EmailAlreadyRegistered));
    assert_eq!(signup_failure_status(&err), 409);
}

#[test]
fn plain_text_signup_keeps_the_values() {
    let p = begin_signup(false, payload(), &PlainTextHasher).ok().unwrap();
    assert_eq!(p.email, "someone@example.com");
    assert_eq!(p.password_hash, "password123");
    assert_eq!(p.otp, p.otp_hash);
}

#[test]
fn login_statuses_follow_the_error_text() {
    assert_eq!(login_failure_status(&ServiceError::InvalidCredentials), 401);
    assert_eq!(login_failure_status(&ServiceError::Repo(RepoError::RowNotFound)), 503);
    assert_eq!(
        login_failure_status(&ServiceError::Repo(RepoError::Database("relation not found".to_string()))),
        401
    );
    assert_eq!(
        login_failure_status(&ServiceError::Repo(RepoError::Database("connection refused".to_string()))),
        503
    );
    assert_eq!(login_failure_status(&ServiceError::Hash(HashError::Bcrypt)), 503);
}

#[test]
fn otp_statuses() {
    assert_eq!(verify_otp_failure_status(&ServiceError::InvalidOtp), 401);
    assert_eq!(verify_otp_failure_status(&ServiceError::Token(TokenError::Expired)), 500);
    assert_eq!(verify_otp_failure_status(&ServiceError::Token(TokenError::Invalid)), 500);
    assert_eq!(ServiceError::Token(TokenError::WrongType).message(), "invalid token type");
    assert_eq!(ServiceError::Token(TokenError::Expired).message(), "ExpiredSignature");
    assert_eq!(ServiceError::Token(TokenError::Invalid).message(), "InvalidToken");
    assert_eq!(ServiceError::Repo(RepoError::Database("boom".to_string())).message(), "boom");
}

#[test]
fn pending_token_of_another_type_is_refused() {
    let mut claims = serde_json::Map::new();
    claims.insert("token_type".to_string(), serde_json::Value::String("access".to_string()));
    for field in ["email", "username", "password_hash", "otp_hash"] {
        claims.insert(field.to_string(), serde_json::Value::String("x".to_string()));
    }
    claims.insert("exp".to_string(), serde_json::Value::from(now_secs() + 600));
    let token = jsonwebtoken::encode(
        &jsonwebtoken::Header::default(),
        &claims,
        &jsonwebtoken::EncodingKey::from_secret(SECRET.as_bytes()),
    )
    .unwrap();
    assert!(matches!(decode_pending_token(&token, SECRET, now_secs()), Err(TokenError::WrongType)));
}

#[test]
fn pending_token_round_trip_and_refusals() {
    let t = create_pending_token("e@x", "user", "ph", "oh", SECRET, now_secs());
    let c = decode_pending_token(&t, SECRET, now_secs()).ok().unwrap();
    assert_eq!(c.token_type, "pending");
    assert_eq!(c.email, "e@x");
    assert_eq!(c.username, "user");
    assert_eq!(c.password_hash, "ph");
    assert_eq!(c.otp_hash, "oh");
    assert!(matches!(decode_pending_token(&t, "other", now_secs()), Err(TokenError::Invalid)));
    assert!(matches!(decode_pending_token("garbage", SECRET, now_secs()), Err(TokenError::Invalid)));
    let old = create_pending_token("e@x", "user", "ph", "oh", SECRET, now_secs() - 4000);
    assert!(matches!(decode_pending_token(&old, SECRET, now_secs()), Err(TokenError::Expired)));
}

#[test]
fn token_expiry_is_checked_against_the_given_time() {
    let t = create_access_token(9, SECRET, 1_000_000);
    // Valid until its expiry plus a minute of leeway.
    assert_eq!(decode_claims(&t, SECRET, 1_000_900).unwrap().sub, 9);
    assert!(decode_claims(&t, SECRET, 1_000_960).is_ok());
    assert!(matches!(decode_claims(&t, SECRET, 1_000_961), Err(TokenError::Expired)));
    // A bad signature is invalid whatever the time.
    assert!(matches!(decode_claims(&t, "x", 1_000_961), Err(TokenError::Invalid)));
    let p = create_pending_token("e@x", "u", "ph", "oh", SECRET, 2_000_000);
    assert!(decode_pending_token(&p, SECRET, 2_000_660).is_ok());
    assert!(matches!(decode_pending_token(&p, SECRET, 2_000_661), Err(TokenError::Expired)));
}

#[test]
fn fresh_user_ids_are_version_four() {
    for _ in 0..20 {
        let id = bittuly::ids::fresh_user_id();
        assert_eq!((id >> 76) & 0xf, 4);
        assert_eq!((id >> 62) & 0x3, 2);
    }
}
