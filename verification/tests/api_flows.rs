use bittuly::hashing::PlainTextHasher;
use bittuly::otp::OtpStore;
use bittuly::session::{authenticate, create_access_token, parse_cookie, set_token_cookies, AuthDecision};
use bittuly::url_api::{resolve_redirect, RedirectOutcome, ShortenReply, ShortenUrlRequest};
use bittuly::urls::MockUrlRepo;
use bittuly::users::{
    begin_signup, check_user_path, PathCheck, finish_signup, issue_tokens, login, verify_otp, CreateUserPayload, LoginPayload,
    MockUserRepo, VerifyOtpPayload,
};

const SECRET: &str = "super-secret-test-key-12345";

fn now_secs() -> u64 {
    bittuly::ids::now().secs as u64
}

/// The sign-up endpoint: validation (422), then the pending token (200).
fn signup(repo: &MockUserRepo, store: &mut OtpStore, p: CreateUserPayload) -> (u16, Option<String>) {
    if !p.validate().is_empty() {
        return (422, None);
    }
    let registered = repo.get_user_by_email(&p.email).is_some();
    match begin_signup(registered, p, &PlainTextHasher) {
        Ok(pending) => {
            store.store_otp(&pending.email, &pending.otp);
            (200, Some(finish_signup(&pending, SECRET, now_secs())))
        }
        Err(e) => (bittuly::users::signup_failure_status(&e), None),
    }
}

/// The code-confirmation endpoint: 201 with the cookies set.
fn confirm(repo: &mut MockUserRepo, p: VerifyOtpPayload) -> (u16, Vec<String>, Option<String>) {
    if !p.validate().is_empty() {
        return (422, vec![], None);
    }
    match verify_otp(&p.pending_token, &p.otp, &PlainTextHasher, SECRET, now_secs()) {
        Ok(payload) => {
            let user = repo.create_user(payload);
            let auth = issue_tokens(user, SECRET, now_secs());
            let cookies = set_token_cookies(&auth.token, &auth.refresh_token, false);
            (201, cookies, Some(auth.user.email))
        }
        Err(e) => (bittuly::users::verify_otp_failure_status(&e), vec![], None),
    }
}

fn otp_for(store: &OtpStore, email: &str) -> String {
    store.get_all().into_iter().find(|o| o.email == email).unwrap().otp
}

#[test]
fn test_api_signup_and_verify_flow() {
    let mut repo = MockUserRepo::new();
    let mut store = OtpStore::new();

    // 1. Request Signup
    let (status, token) = signup(
        &repo,
        &mut store,
        CreateUserPayload {
            username: "apiuser".to_string(),
            email: "api@example.com".to_string(),
            password: "password123".to_string(),
        },
    );
    assert_eq!(status, 200);
    let pending_token = token.unwrap();
    assert!(!pending_token.is_empty());

    // 2. Fetch OTP from memory
    let otp = otp_for(&store, "api@example.com");

    // 3. Verify OTP
    let (status, cookies, email) =
        confirm(&mut repo, VerifyOtpPayload { pending_token, otp });
    assert_eq!(status, 201);

    // Ensure cookies were set
    assert!(cookies.iter().any(|c| c.starts_with("access_token=")));
    assert!(cookies.iter().any(|c| c.starts_with("refresh_token=")));

    assert_eq!(email.as_deref(), Some("api@example.com"));
    let user = repo.get_user_by_email("api@example.com").unwrap();
    assert_eq!(user.username, "apiuser");
}

#[test]
fn test_api_login_success() {
    let mut repo = MockUserRepo::new();
    let mut store = OtpStore::new();
    let (_, token) = signup(
        &repo,
        &mut store,
        CreateUserPayload {
            username: "user".to_string(),
            email: "login@example.com".to_string(),
            password: "password123".to_string(),
        },
    );
    let otp = otp_for(&store, "login@example.com");
    confirm(&mut repo, VerifyOtpPayload { pending_token: token.unwrap(), otp });

    // Attempt Login
    let body = LoginPayload { email: "login@example.com".to_string(), password: "password123".to_string() };
    assert!(body.validate().is_empty());
    let found = repo.get_user_by_email(&body.email);
    let auth = login(found, &PlainTextHasher, &body.password, SECRET, now_secs()).unwrap();
    let cookies = set_token_cookies(&auth.token, &auth.refresh_token, false);
    assert!(cookies[0].starts_with("access_token="));
}

#[test]
fn test_api_validation_error() {
    let repo = MockUserRepo::new();
    let mut store = OtpStore::new();
    // Short username, invalid email, missing password
    let (status, _) = signup(
        &repo,
        &mut store,
        CreateUserPayload {
            username: "us".to_string(),
            email: "not-an-email".to_string(),
            password: String::new(),
        },
    );
    assert_eq!(status, 422);
}

#[test]
fn test_api_shorten_url_success() {
    let mut repo = MockUrlRepo::new();
    let token = create_access_token(11, SECRET, now_secs());
    let header = format!("access_token={}", token);
    let claims = match authenticate(Some(&header), Some(SECRET), now_secs()) {
        AuthDecision::Proceed(c) => c,
        _ => panic!("token refused"),
    };

    let payload = ShortenUrlRequest { original_url: "https://rust-lang.org".to_string(), expires_at: None };
    assert!(payload.validate().is_empty());
    let outcome: Result<_, ()> = Ok(repo.add_shorten_url(&payload.original_url, claims.sub, payload.expires_at));
    assert_eq!(ShortenReply::of(&outcome).status(), 201);

    let url = outcome.unwrap().unwrap();
    assert_eq!(url.original_url, "https://rust-lang.org");
    assert!(!url.short_code.is_empty());
}

#[test]
fn test_api_get_original_url() {
    let mut repo = MockUrlRepo::new();
    let url = repo.add_shorten_url("https://github.com", 11, None).unwrap();

    // Resolve (does not need auth)
    let lookup: Result<_, ()> = Ok(repo.get_original_url(&url.short_code));
    let outcome = resolve_redirect(lookup, bittuly::ids::now());
    assert_eq!(outcome.status(), 307);
    match outcome {
        RedirectOutcome::Redirect(location) => assert_eq!(location, "https://github.com"),
        _ => panic!("not a redirect"),
    }
}

#[test]
fn test_api_unauthorized() {
    assert!(matches!(authenticate(None, Some(SECRET), now_secs()), AuthDecision::Unauthorized));
    assert!(matches!(
        authenticate(Some("theme=dark"), Some(SECRET), now_secs()),
        AuthDecision::Unauthorized
    ));
}

#[test]
fn session_cookie_header_reads_back_both_tokens() {
    let access = create_access_token(5, SECRET, now_secs());
    let header = format!("access_token={}; refresh_token=r.t.v", access);
    assert_eq!(parse_cookie(&header, "access_token").as_deref(), Some(access.as_str()));
    assert_eq!(parse_cookie(&header, "refresh_token").as_deref(), Some("r.t.v"));
    assert_eq!(parse_cookie(&header, "missing"), None);
}

#[test]
fn expired_access_token_is_refreshed() {
    let old = now_secs() - 3600;
    let access = create_access_token(5, SECRET, old);
    let refresh = bittuly::session::create_refresh_token(5, SECRET, now_secs());
    let header = format!("access_token={}; refresh_token={}", access, refresh);
    match authenticate(Some(&header), Some(SECRET), now_secs()) {
        AuthDecision::ProceedRefreshed { claims, access_token, refresh_token } => {
            assert_eq!(claims.sub, 5);
            assert_eq!(claims.token_type, "access");
            assert!(!access_token.is_empty() && !refresh_token.is_empty());
        }
        _ => panic!("expected a refresh"),
    }
    // Without a refresh token the expired access token is refused.
    let only_access = format!("access_token={}", access);
    assert!(matches!(
        authenticate(Some(&only_access), Some(SECRET), now_secs()),
        AuthDecision::Unauthorized
    ));
}

#[test]
fn refresh_token_is_not_an_access_token() {
    let refresh = bittuly::session::create_refresh_token(5, SECRET, now_secs());
    let header = format!("access_token={}", refresh);
    assert!(matches!(authenticate(Some(&header), Some(SECRET), now_secs()), AuthDecision::Unauthorized));
}

#[test]
fn missing_secret_is_a_server_error() {
    let access = create_access_token(5, SECRET, now_secs());
    let header = format!("access_token={}", access);
    assert!(matches!(authenticate(Some(&header), None, now_secs()), AuthDecision::ServerError));
}

#[test]
fn user_paths_are_checked_against_the_caller() {
    let me = 0x0123_4567_89ab_cdef_0123_4567_89ab_cdefu128;
    assert!(matches!(check_user_path("not-a-uuid", me), PathCheck::BadRequest));
    assert!(matches!(
        check_user_path("01234567-89ab-cdef-0123-4567-89abcdef0", me),
        PathCheck::BadRequest
    ));
    assert!(matches!(
        check_user_path("01234567-89ab-cdef-0123-456789abcdee", me),
        PathCheck::Forbidden
    ));
    assert!(matches!(
        check_user_path("01234567-89ab-cdef-0123-456789abcdef", me),
        PathCheck::Own(id) if id == me
    ));
}
