use bittuly::hashing::{BcryptHasher, PasswordHasher, PlainTextHasher};
use bittuly::otp::OtpStore;
use bittuly::session::decode_claims;
use bittuly::users::{
    begin_signup, finish_signup, login, verify_otp, CreateUserPayload, MockUserRepo, ServiceError,
    UpdateUserPayload,
};

const SECRET: &str = "super-secret-test-key-12345";

fn now_secs() -> u64 {
    bittuly::ids::now().secs as u64
}

fn payload(username: &str, email: &str, password: &str) -> CreateUserPayload {
    CreateUserPayload {
        username: username.to_string(),
        email: email.to_string(),
        password: password.to_string(),
    }
}

/// The sign-up request as the service runs it: refuse a registered email,
/// hash, draw the code, keep it in the development store, issue the token.
fn request_signup<H: PasswordHasher>(
    repo: &MockUserRepo,
    store: &mut OtpStore,
    hasher: &H,
    p: CreateUserPayload,
) -> Result<String, ServiceError> {
    let registered = repo.get_user_by_email(&p.email).is_some();
    let pending = begin_signup(registered, p, hasher)?;
    store.store_otp(&pending.email, &pending.otp);
    Ok(finish_signup(&pending, SECRET, now_secs()))
}

#[test]
fn test_login_success() {
    let mut repo = MockUserRepo::new();
    // Seed a user
    repo.create_user(payload(
        "testuser",
        "test@example.com",
        &bcrypt::hash("password123", bcrypt::DEFAULT_COST).unwrap(),
    ));

    // Attempt login
    let found = repo.get_user_by_email("test@example.com");
    let response = login(found, &BcryptHasher { cost: 12 }, "password123", SECRET, now_secs()).unwrap();
    assert_eq!(response.user.email, "test@example.com");
    assert!(!response.token.is_empty());
    assert!(!response.refresh_token.is_empty());
}

#[test]
fn test_login_invalid_password() {
    let mut repo = MockUserRepo::new();
    repo.create_user(payload(
        "testuser",
        "test@example.com",
        &bcrypt::hash("password123", bcrypt::DEFAULT_COST).unwrap(),
    ));

    let found = repo.get_user_by_email("test@example.com");
    let err = login(found, &BcryptHasher { cost: 12 }, "wrongpass", SECRET, now_secs())
        .err()
        .unwrap();
    assert_eq!(err.message(), "invalid credentials");
}

#[test]
fn test_request_signup_success() {
    let repo = MockUserRepo::new();
    let mut store = OtpStore::new();
    let token = request_signup(
        &repo,
        &mut store,
        &BcryptHasher::from_mode("development"),
        payload("newuser", "new@example.com", "password123"),
    )
    .unwrap();
    assert!(!token.is_empty());
}

#[test]
fn test_request_signup_duplicate_email() {
    let mut repo = MockUserRepo::new();
    let mut store = OtpStore::new();
    repo.create_user(payload("existing", "dup@example.com", "hashed"));

    let err = request_signup(
        &repo,
        &mut store,
        &BcryptHasher::from_mode("development"),
        payload("newuser", "dup@example.com", "password123"),
    )
    .err()
    .unwrap();
    assert_eq!(err.message(), "email already registered");
}

#[test]
fn test_verify_otp_success() {
    let mut repo = MockUserRepo::new();
    let mut store = OtpStore::new();
    let hasher = BcryptHasher::from_mode("development");
    let email = "otp@example.com";

    let pending_token = request_signup(
        &repo,
        &mut store,
        &hasher,
        payload("otpuser", email, "password123"),
    )
    .unwrap();

    // Fetch the generated OTP from the dev store
    let stored_otp = store
        .get_all()
        .into_iter()
        .find(|o| o.email == email)
        .expect("OTP should be in store")
        .otp;

    let new_user = verify_otp(&pending_token, &stored_otp, &hasher, SECRET, now_secs()).unwrap();
    let user = repo.create_user(new_user);
    let response = bittuly::users::issue_tokens(user, SECRET, now_secs());
    assert_eq!(response.user.email, email);
    assert_eq!(response.user.username, "otpuser");

    // Ensure user was actually persisted to repo
    let db_user = repo.get_user_by_email(email).unwrap();
    assert_eq!(db_user.email, email);
}

#[test]
fn test_verify_otp_invalid_code() {
    let repo = MockUserRepo::new();
    let mut store = OtpStore::new();
    let hasher = BcryptHasher::from_mode("development");
    let email = "otp2@example.com";

    let pending_token = request_signup(
        &repo,
        &mut store,
        &hasher,
        payload("otpuser2", email, "password123"),
    )
    .unwrap();

    let stored = store.get_all().into_iter().find(|o| o.email == email).unwrap().otp;
    // Codes are drawn from 100000..=999999, so this one never matches.
    assert_ne!(stored, "000000");
    let err = verify_otp(&pending_token, "000000", &hasher, SECRET, now_secs()).err().unwrap();
    assert_eq!(err.message(), "invalid OTP");
}

#[test]
fn test_create_and_get_user() {
    let mut repo = MockUserRepo::new();

    // Test create
    let user = repo.create_user(payload("db_test", "db@example.com", "hashed_pass"));
    assert_eq!(user.username, "db_test");
    assert_eq!(user.email, "db@example.com");

    // Test get by email
    let fetched = repo.get_user_by_email("db@example.com").unwrap();
    assert_eq!(fetched.id, user.id);

    // Test get by id
    let fetched_by_id = repo.get_user_by_id(user.id).unwrap();
    assert_eq!(fetched_by_id.email, "db@example.com");
}

#[test]
fn test_update_user() {
    let mut repo = MockUserRepo::new();
    let user = repo.create_user(payload("old", "old@example.com", "pass"));

    let updated = repo
        .update_user(
            user.id,
            UpdateUserPayload {
                username: Some("new".to_string()),
                email: None, // keep old
                password: None,
            },
        )
        .ok()
        .unwrap();

    assert_eq!(updated.username, "new");
    assert_eq!(updated.email, "old@example.com"); // remains unchanged
}

#[test]
fn test_delete_user() {
    let mut repo = MockUserRepo::new();
    let user = repo.create_user(payload("delete_me", "del@example.com", "pass"));

    repo.delete_user(user.id);

    let fetched = repo.get_user_by_id(user.id);
    assert!(fetched.is_none());
}

#[test]
fn update_of_unknown_user_is_row_not_found() {
    let mut repo = MockUserRepo::new();
    let err = repo
        .update_user(42, UpdateUserPayload { username: None, email: None, password: None })
        .err()
        .unwrap();
    assert_eq!(
        ServiceError::Repo(err).message(),
        "no rows returned by a query that expected to return at least one row"
    );
}

#[test]
fn login_of_unknown_email_is_invalid_credentials() {
    let err = login(None, &PlainTextHasher, "x", SECRET, now_secs()).err().unwrap();
    assert_eq!(err.message(), "invalid credentials");
}

#[test]
fn login_tokens_decode_to_the_user() {
    let mut repo = MockUserRepo::new();
    let user = repo.create_user(payload("u", "u@example.com", "pw123456"));
    let found = repo.get_user_by_email("u@example.com");
    let auth = login(found, &PlainTextHasher, "pw123456", SECRET, now_secs()).unwrap();
    let access = decode_claims(&auth.token, SECRET, now_secs()).unwrap();
    assert_eq!(access.sub, user.id);
    assert_eq!(access.token_type, "access");
    let refresh = decode_claims(&auth.refresh_token, SECRET, now_secs()).unwrap();
    assert_eq!(refresh.token_type, "refresh");
    assert_eq!(refresh.exp, access.exp - 900 + 2592000);
    assert!(decode_claims(&auth.token, "another-secret", now_secs()).is_err());
}

#[test]
fn signup_then_login_with_same_password() {
    let mut repo = MockUserRepo::new();
    let mut store = OtpStore::new();
    let hasher = BcryptHasher::from_mode("development");
    let token = request_signup(&repo, &mut store, &hasher, payload("sam", "sam@example.com", "secret99")).unwrap();
    let otp = store.get_all().into_iter().find(|o| o.email == "sam@example.com").unwrap().otp;
    let created = verify_otp(&token, &otp, &hasher, SECRET, now_secs()).unwrap();
    assert_ne!(created.password, "secret99");
    repo.create_user(created);
    let found = repo.get_user_by_email("sam@example.com");
    assert!(login(found, &hasher, "secret99", SECRET, now_secs()).is_ok());
    let found = repo.get_user_by_email("sam@example.com");
    assert!(login(found, &hasher, "secret98", SECRET, now_secs()).is_err());
}

#[test]
fn tampered_pending_token_is_refused() {
    let repo = MockUserRepo::new();
    let mut store = OtpStore::new();
    let token = request_signup(&repo, &mut store, &PlainTextHasher, payload("t", "t@example.com", "pw1234")).unwrap();
    let otp = store.get_all()[0].otp.clone();
    let err = verify_otp(&token, &otp, &PlainTextHasher, "wrong-secret", now_secs()).err().unwrap();
    assert!(matches!(err, ServiceError::Token(_)));
}

#[test]
fn bcrypt_hasher_costs_follow_the_mode() {
    assert_eq!(BcryptHasher::from_mode("development").cost, 4);
    assert_eq!(BcryptHasher::from_mode("production").cost, 10);
    assert_eq!(BcryptHasher::from_mode("").cost, 10);
    let h = BcryptHasher { cost: 4 };
    let hashed = h.hash("abc").unwrap();
    assert_ne!(hashed, "abc");
    assert_eq!(h.verify("abc", &hashed).unwrap(), true);
    assert_eq!(h.verify("abd", &hashed).unwrap(), false);
    assert!(BcryptHasher { cost: 3 }.hash("abc").is_err());
    assert!(h.verify("abc", "not-a-hash").is_err());
}

#[test]
fn plain_text_hasher_is_identity() {
    assert_eq!(PlainTextHasher.hash("pw").unwrap(), "pw");
    assert!(PlainTextHasher.verify("pw", "pw").unwrap());
    assert!(!PlainTextHasher.verify("pw", "pW").unwrap());
}
