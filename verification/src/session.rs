//! Session tokens: HS256 JWTs for access, refresh and pending sign-ups, the
//! cookies that carry them, and the authentication decision a protected
//! route makes from a request's `Cookie` header.
use jsonwebtoken::{decode, encode, DecodingKey, EncodingKey, Header, Validation};
use serde_json::Value;
use vstd::prelude::*;

use crate::ids::{parse_uuid, uuid_hyphenated, uuid_parse, uuid_string};
use crate::text::{
    chars_of, concat, decimal, decimal_string, eq_str, is_white, string_of, trim, trim_end, trim_range,
    trim_start,
};

verus! {

/// Token type of an access token.
pub const ACCESS_TOKEN_TYPE: &'static str = "access";

/// Token type of a refresh token.
pub const REFRESH_TOKEN_TYPE: &'static str = "refresh";

/// Token type of a pending sign-up token.
pub const PENDING_TOKEN_TYPE: &'static str = "pending";

/// Lifetime of an access token: 15 minutes.
pub const ACCESS_TOKEN_TTL_SECONDS: u64 = 900;

/// Lifetime of a refresh token: 30 days.
pub const REFRESH_TOKEN_TTL_SECONDS: u64 = 2592000;

/// Lifetime of a pending sign-up token: 10 minutes.
pub const PENDING_TOKEN_TTL_SECONDS: u64 = 600;

/// Name of the access-token cookie.
pub const COOKIE_ACCESS: &'static str = "access_token";

/// Name of the refresh-token cookie.
pub const COOKIE_REFRESH: &'static str = "refresh_token";

/// The claims of an access or refresh token.
pub struct Claims {
    /// The user the token was issued to.
    pub sub: u128,
    /// Expiry, in seconds since the Unix epoch.
    pub exp: u64,
    /// `access` or `refresh`.
    pub token_type: String,
}

/// The claims of a pending sign-up token: everything needed to create the
/// user once the one-time password is confirmed.
pub struct OtpClaims {
    /// Identifies this as a pending sign-up token, not an auth token.
    pub token_type: String,
    pub email: String,
    pub username: String,
    pub password_hash: String,
    pub otp_hash: String,
    /// Expiry, in seconds since the Unix epoch.
    pub exp: u64,
}

/// Why a token was not accepted.
#[derive(Debug, PartialEq, Eq, Structural)]
pub enum TokenError {
    /// The signature and payload are fine but the token has expired.
    Expired,
    /// Bad signature, malformed token or payload.
    Invalid,
    /// A well-formed token of another type.
    WrongType,
}

// ---------------------------------------------------------------------------
// Trusted calls into jsonwebtoken
// ---------------------------------------------------------------------------

/// The HS256 JWT `jsonwebtoken::encode` makes for the claims
/// `{"sub": sub, "exp": exp, "token_type": token_type}` under `secret`.
pub uninterp spec fn session_jwt(sub: Seq<char>, exp: nat, token_type: Seq<char>, secret: Seq<char>) -> Seq<char>;

/// The claims `(sub, exp, token_type)` that `jsonwebtoken::decode` accepts
/// from `token` under `secret` with HS256 and every check of
/// `Validation::default()` but the expiry check (the signature, the `exp`
/// claim being present, no unexpected `aud`), when the payload holds those
/// fields with those JSON types; `None` otherwise.
pub uninterp spec fn session_payload(token: Seq<char>, secret: Seq<char>) -> Option<(Seq<char>, nat, Seq<char>)>;

/// The HS256 JWT `jsonwebtoken::encode` makes for the claims
/// `{"token_type", "email", "username", "password_hash", "otp_hash", "exp"}`
/// under `secret`.
pub uninterp spec fn pending_jwt(
    token_type: Seq<char>,
    email: Seq<char>,
    username: Seq<char>,
    password_hash: Seq<char>,
    otp_hash: Seq<char>,
    exp: nat,
    secret: Seq<char>,
) -> Seq<char>;

/// The pending sign-up claims that `jsonwebtoken::decode` accepts from
/// `token` under `secret`, with the same checks as `session_payload`, when
/// the payload holds those fields with those JSON types; `None` otherwise.
pub uninterp spec fn pending_payload(token: Seq<char>, secret: Seq<char>) -> Option<
    (Seq<char>, Seq<char>, Seq<char>, Seq<char>, Seq<char>, nat),
>;

/// Calls `jsonwebtoken::encode` with the default (HS256) header on the
/// claims object `{"sub", "exp", "token_type"}`, keyed by the secret's bytes.
/// For an HMAC key the call cannot fail; the token is `session_jwt` of the
/// arguments, never empty (a header, a payload and a signature joined by
/// dots), and decoding it with the same secret gives the claims back.
#[verifier::external_body]
fn encode_session_claims(sub: String, exp: u64, token_type: String, secret: &str) -> (t: String)
    ensures
        t@ == session_jwt(sub@, exp as nat, token_type@, secret@),
        t@.len() > 0,
        session_payload(t@, secret@) == Some((sub@, exp as nat, token_type@)),
{
    let mut claims = serde_json::Map::new();
    claims.insert("sub".to_owned(), Value::String(sub));
    claims.insert("exp".to_owned(), Value::from(exp));
    claims.insert("token_type".to_owned(), Value::String(token_type));
    let key = EncodingKey::from_secret(secret.as_bytes());
    encode(&Header::default(), &claims, &key).unwrap_or_default()
}

/// Calls `jsonwebtoken::decode` with `Validation::default()` but its
/// expiry check turned off (the expiry is checked against a given time by
/// the callers) and reads the `sub`, `exp` and `token_type` fields. The
/// answer is a function of the token and the secret alone: the claims of
/// `session_payload`, or `None` when it has none.
#[verifier::external_body]
fn decode_session_claims(token: &str, secret: &str) -> (r: Option<(String, u64, String)>)
    ensures
        match session_payload(token@, secret@) {
            Some(p) => r matches Some((s, e, t)) && s@ == p.0 && e as nat == p.1 && t@ == p.2,
            None => r is None,
        },
{
    let mut checks = Validation::default();
    checks.validate_exp = false;
    let key = DecodingKey::from_secret(secret.as_bytes());
    let c = decode::<Value>(token, &key, &checks).ok()?.claims;
    Some((c["sub"].as_str()?.to_owned(), c["exp"].as_u64()?, c["token_type"].as_str()?.to_owned()))
}

/// Calls `jsonwebtoken::encode` with the default (HS256) header on the
/// pending sign-up claims, keyed by the secret's bytes. For an HMAC key the
/// call cannot fail; the token is `pending_jwt` of the arguments, never
/// empty, and decoding it with the same secret gives the claims back.
#[verifier::external_body]
fn encode_pending_claims(
    token_type: String,
    email: String,
    username: String,
    password_hash: String,
    otp_hash: String,
    exp: u64,
    secret: &str,
) -> (t: String)
    ensures
        t@ == pending_jwt(token_type@, email@, username@, password_hash@, otp_hash@, exp as nat, secret@),
        t@.len() > 0,
        pending_payload(t@, secret@) == Some((token_type@, email@, username@, password_hash@, otp_hash@, exp as nat)),
{
    let mut claims = serde_json::Map::new();
    claims.insert("token_type".to_owned(), Value::String(token_type));
    claims.insert("email".to_owned(), Value::String(email));
    claims.insert("username".to_owned(), Value::String(username));
    claims.insert("password_hash".to_owned(), Value::String(password_hash));
    claims.insert("otp_hash".to_owned(), Value::String(otp_hash));
    claims.insert("exp".to_owned(), Value::from(exp));
    let key = EncodingKey::from_secret(secret.as_bytes());
    encode(&Header::default(), &claims, &key).unwrap_or_default()
}

/// Calls `jsonwebtoken::decode` as `decode_session_claims` does (expiry
/// check off) and reads the pending sign-up fields: the claims of
/// `pending_payload`, or `None` when it has none.
#[verifier::external_body]
fn decode_pending_claims(token: &str, secret: &str) -> (r: Option<(String, String, String, String, String, u64)>)
    ensures
        match pending_payload(token@, secret@) {
            Some(p) => r matches Some((a, b, c, d, e, x)) && a@ == p.0 && b@ == p.1 && c@ == p.2 && d@ == p.3
                && e@ == p.4 && x as nat == p.5,
            None => r is None,
        },
{
    let mut checks = Validation::default();
    checks.validate_exp = false;
    let key = DecodingKey::from_secret(secret.as_bytes());
    let c = decode::<Value>(token, &key, &checks).ok()?.claims;
    let text = |k: &str| c[k].as_str().map(str::to_owned);
    Some((text("token_type")?, text("email")?, text("username")?, text("password_hash")?, text("otp_hash")?, c["exp"].as_u64()?))
}

// ---------------------------------------------------------------------------
// Issuing and reading tokens
// ---------------------------------------------------------------------------

/// A signed token of type `token_type` for `user_id`, valid for `ttl_seconds`
/// from `now` (seconds since the Unix epoch), signed with `secret`.
pub fn create_token(user_id: u128, token_type: &str, ttl_seconds: u64, secret: &str, now: u64) -> (t: String)
    requires
        now + ttl_seconds <= u64::MAX,
    ensures
        t@ == session_jwt(uuid_hyphenated(user_id), (now + ttl_seconds) as nat, token_type@, secret@),
        t@.len() > 0,
        session_payload(t@, secret@) == Some((uuid_hyphenated(user_id), (now + ttl_seconds) as nat, token_type@)),
        uuid_parse(uuid_hyphenated(user_id)) == Some(user_id),
{
    let exp = now + ttl_seconds;
    encode_session_claims(uuid_string(user_id), exp, token_type.to_owned(), secret)
}

/// An access token for `user_id`, valid for 15 minutes from `now`.
pub fn create_access_token(user_id: u128, secret: &str, now: u64) -> (t: String)
    requires
        now + ACCESS_TOKEN_TTL_SECONDS <= u64::MAX,
    ensures
        t@ == session_jwt(uuid_hyphenated(user_id), (now + 900) as nat, "access"@, secret@),
        t@.len() > 0,
        session_payload(t@, secret@) == Some((uuid_hyphenated(user_id), (now + 900) as nat, "access"@)),
        uuid_parse(uuid_hyphenated(user_id)) == Some(user_id),
{
    create_token(user_id, ACCESS_TOKEN_TYPE, ACCESS_TOKEN_TTL_SECONDS, secret, now)
}

/// A refresh token for `user_id`, valid for 30 days from `now`.
pub fn create_refresh_token(user_id: u128, secret: &str, now: u64) -> (t: String)
    requires
        now + REFRESH_TOKEN_TTL_SECONDS <= u64::MAX,
    ensures
        t@ == session_jwt(uuid_hyphenated(user_id), (now + 2592000) as nat, "refresh"@, secret@),
        t@.len() > 0,
        session_payload(t@, secret@) == Some((uuid_hyphenated(user_id), (now + 2592000) as nat, "refresh"@)),
        uuid_parse(uuid_hyphenated(user_id)) == Some(user_id),
{
    create_token(user_id, REFRESH_TOKEN_TYPE, REFRESH_TOKEN_TTL_SECONDS, secret, now)
}

/// A pending sign-up token holding the user's data and the OTP hash, valid
/// for 10 minutes from `now`.
pub fn create_pending_token(
    email: &str,
    username: &str,
    password_hash: &str,
    otp_hash: &str,
    secret: &str,
    now: u64,
) -> (t: String)
    requires
        now + PENDING_TOKEN_TTL_SECONDS <= u64::MAX,
    ensures
        t@ == pending_jwt("pending"@, email@, username@, password_hash@, otp_hash@, (now + 600) as nat, secret@),
        t@.len() > 0,
        pending_payload(t@, secret@) == Some(("pending"@, email@, username@, password_hash@, otp_hash@, (now + 600) as nat)),
{
    encode_pending_claims(
        PENDING_TOKEN_TYPE.to_owned(),
        email.to_owned(),
        username.to_owned(),
        password_hash.to_owned(),
        otp_hash.to_owned(),
        now + PENDING_TOKEN_TTL_SECONDS,
        secret,
    )
}

/// Seconds a token stays accepted after its expiry (`Validation::default()`'s
/// leeway).
pub const EXPIRY_LEEWAY_SECONDS: u64 = 60;

/// Whether a token with expiry `exp` has expired at `now`: its expiry lies
/// more than the leeway before `now`.
pub open spec fn expired(exp: nat, now: nat) -> bool {
    exp + 60 < now
}

fn is_expired(exp: u64, now: u64) -> (b: bool)
    ensures
        b == expired(exp as nat, now as nat),
{
    now > EXPIRY_LEEWAY_SECONDS && exp < now - EXPIRY_LEEWAY_SECONDS
}

/// What reading a pending sign-up token at `now` gives: refused as invalid
/// without claims, as expired past its expiry, as of the wrong type unless
/// it is a `pending` token; otherwise its claims.
pub open spec fn pending_claims_at(token: Seq<char>, secret: Seq<char>, now: nat) -> Result<
    (Seq<char>, Seq<char>, Seq<char>, Seq<char>, Seq<char>, nat),
    TokenError,
> {
    match pending_payload(token, secret) {
        None => Err(TokenError::Invalid),
        Some(p) => if expired(p.5, now) {
            Err(TokenError::Expired)
        } else if p.0 != "pending"@ {
            Err(TokenError::WrongType)
        } else {
            Ok(p)
        },
    }
}

/// Decodes a pending sign-up token at `now` (seconds since the Unix epoch);
/// it is refused when tampered or malformed, expired, or of another type.
pub fn decode_pending_token(token: &str, secret: &str, now: u64) -> (r: Result<OtpClaims, TokenError>)
    ensures
        match pending_claims_at(token@, secret@, now as nat) {
            Ok(p) => r matches Ok(c) && c.token_type@ == p.0 && c.email@ == p.1 && c.username@ == p.2
                && c.password_hash@ == p.3 && c.otp_hash@ == p.4 && c.exp as nat == p.5,
            Err(e) => r matches Err(x) && x == e,
        },
{
    let (token_type, email, username, password_hash, otp_hash, exp) = match decode_pending_claims(token, secret) {
        Some(c) => c,
        None => {
            return Err(TokenError::Invalid);
        },
    };
    if is_expired(exp, now) {
        return Err(TokenError::Expired);
    }
    proof {
        reveal_strlit("pending");
    }
    if !eq_str(token_type.as_str(), PENDING_TOKEN_TYPE) {
        return Err(TokenError::WrongType);
    }
    Ok(OtpClaims { token_type, email, username, password_hash, otp_hash, exp })
}

/// What reading an access or refresh token at `now` gives: refused as
/// invalid without claims or when `sub` is not a UUID, as expired past its
/// expiry; otherwise the user, the expiry and the token type.
pub open spec fn claims_at(token: Seq<char>, secret: Seq<char>, now: nat) -> Result<(u128, nat, Seq<char>), TokenError> {
    match session_payload(token, secret) {
        None => Err(TokenError::Invalid),
        Some(p) => match uuid_parse(p.0) {
            None => Err(TokenError::Invalid),
            Some(id) => if expired(p.1, now) {
                Err(TokenError::Expired)
            } else {
                Ok((id, p.1, p.2))
            },
        },
    }
}

/// Decodes an access or refresh token at `now` into claims with a parsed
/// user id. Expiry is reported as such; a token whose `sub` is not a UUID
/// is invalid.
pub fn decode_claims(token: &str, secret: &str, now: u64) -> (r: Result<Claims, TokenError>)
    ensures
        match claims_at(token@, secret@, now as nat) {
            Ok(c) => r matches Ok(x) && x.sub == c.0 && x.exp as nat == c.1 && x.token_type@ == c.2,
            Err(e) => r matches Err(x) && x == e,
        },
{
    let (sub, exp, token_type) = match decode_session_claims(token, secret) {
        Some(c) => c,
        None => {
            return Err(TokenError::Invalid);
        },
    };
    let id = match parse_uuid(sub.as_str()) {
        Some(id) => id,
        None => {
            return Err(TokenError::Invalid);
        },
    };
    if is_expired(exp, now) {
        return Err(TokenError::Expired);
    }
    Ok(Claims { sub: id, exp, token_type })
}

/// A pending sign-up token reads back, until its expiry and the leeway
/// after it, as the claims it was issued with.
pub proof fn lemma_pending_token_round_trip(
    token: Seq<char>,
    secret: Seq<char>,
    email: Seq<char>,
    username: Seq<char>,
    password_hash: Seq<char>,
    otp_hash: Seq<char>,
    issued: nat,
    now: nat,
)
    requires
        pending_payload(token, secret) == Some(("pending"@, email, username, password_hash, otp_hash, issued + 600)),
        now <= issued + 600 + 60,
    ensures
        pending_claims_at(token, secret, now) == Ok::<_, TokenError>(
            ("pending"@, email, username, password_hash, otp_hash, issued + 600),
        ),
{
}

/// An access or refresh token reads back, until its expiry and the leeway
/// after it, as the user, expiry and type it was issued with.
pub proof fn lemma_session_token_round_trip(
    token: Seq<char>,
    secret: Seq<char>,
    user_id: u128,
    exp: nat,
    token_type: Seq<char>,
    now: nat,
)
    requires
        session_payload(token, secret) == Some((uuid_hyphenated(user_id), exp, token_type)),
        uuid_parse(uuid_hyphenated(user_id)) == Some(user_id),
        now <= exp + 60,
    ensures
        claims_at(token, secret, now) == Ok::<_, TokenError>((user_id, exp, token_type)),
{
}

// ---------------------------------------------------------------------------
// Cookies
// ---------------------------------------------------------------------------

/// The index of the first `c` in `s`, or `s.len()` when there is none.
pub open spec fn first_index(s: Seq<char>, c: char) -> int
    decreases s.len(),
{
    if s.len() == 0 {
        0
    } else if s[0] == c {
        0
    } else {
        1 + first_index(s.drop_first(), c)
    }
}

/// The value a single `name=value` pair gives for `name`: the pair is
/// trimmed and split at its first `=`; the trimmed key must equal `name`,
/// and the value is trimmed. Pairs without `=` give nothing.
pub open spec fn cookie_value(pair: Seq<char>, name: Seq<char>) -> Option<Seq<char>> {
    let p = trim(pair);
    let k = first_index(p, '=');
    if k < p.len() && trim(p.take(k)) == name {
        Some(trim(p.skip(k + 1)))
    } else {
        None
    }
}

/// The value of the first pair of a `Cookie: a=1; b=2` header (split at
/// every `;`) that names `name`.
pub open spec fn find_cookie(header: Seq<char>, name: Seq<char>) -> Option<Seq<char>>
    decreases header.len(),
{
    let k = first_index(header, ';');
    match cookie_value(header.take(k), name) {
        Some(v) => Some(v),
        None => if k >= header.len() {
            None
        } else {
            proof {
                lemma_first_index(header, ';');
            }
            find_cookie(header.skip(k + 1), name)
        },
    }
}

/// `first_index` is a position in `s`, holds `c` when inside `s`, and no
/// earlier position holds `c`.
pub proof fn lemma_first_index(s: Seq<char>, c: char)
    ensures
        0 <= first_index(s, c) <= s.len(),
        first_index(s, c) < s.len() ==> s[first_index(s, c)] == c,
        forall|i: int| 0 <= i < first_index(s, c) ==> s[i] != c,
    decreases s.len(),
{
    if s.len() > 0 && s[0] != c {
        lemma_first_index(s.drop_first(), c);
        assert forall|i: int| 0 <= i < first_index(s, c) implies s[i] != c by {
            if i > 0 {
                assert(s[i] == s.drop_first()[i - 1]);
            }
        }
    }
}

pub(crate) proof fn lemma_first_index_unique(s: Seq<char>, c: char, k: int)
    requires
        0 <= k <= s.len(),
        k < s.len() ==> s[k] == c,
        forall|i: int| 0 <= i < k ==> s[i] != c,
    ensures
        first_index(s, c) == k,
    decreases s.len(),
{
    if s.len() > 0 && k > 0 {
        assert forall|i: int| 0 <= i < k - 1 implies s.drop_first()[i] != c by {
            assert(s.drop_first()[i] == s[i + 1]);
        }
        lemma_first_index_unique(s.drop_first(), c, k - 1);
    }
}

/// The first index in `cs[lo..hi]` holding `c`, or `hi`.
fn find_char(cs: &Vec<char>, lo: usize, hi: usize, c: char) -> (k: usize)
    requires
        lo <= hi <= cs@.len(),
    ensures
        lo <= k <= hi,
        k - lo == first_index(cs@.subrange(lo as int, hi as int), c),
{
    let mut k = lo;
    while k < hi && cs[k] != c
        invariant
            lo <= k <= hi <= cs@.len(),
            forall|i: int| lo <= i < k ==> cs@[i] != c,
        decreases hi - k,
    {
        k = k + 1;
    }
    proof {
        let s = cs@.subrange(lo as int, hi as int);
        assert forall|i: int| 0 <= i < k - lo implies s[i] != c by {
            assert(s[i] == cs@[lo + i]);
        }
        lemma_first_index_unique(s, c, k - lo);
    }
    k
}

/// Whether `cs[lo..hi]` equals `name`.
fn range_eq(cs: &Vec<char>, lo: usize, hi: usize, name: &Vec<char>) -> (r: bool)
    requires
        lo <= hi <= cs@.len(),
    ensures
        r == (cs@.subrange(lo as int, hi as int) == name@),
{
    if hi - lo != name.len() {
        return false;
    }
    let mut i: usize = 0;
    while i < name.len()
        invariant
            hi - lo == name@.len(),
            lo <= hi <= cs@.len(),
            i <= name@.len(),
            forall|j: int| 0 <= j < i ==> cs@[lo + j] == name@[j],
        decreases name@.len() - i,
    {
        if cs[lo + i] != name[i] {
            assert(cs@.subrange(lo as int, hi as int)[i as int] != name@[i as int]);
            return false;
        }
        i = i + 1;
    }
    assert(cs@.subrange(lo as int, hi as int) =~= name@);
    true
}

/// The value `cs[lo..hi]` gives as one cookie pair for `name`.
fn pair_value(cs: &Vec<char>, lo: usize, hi: usize, name: &Vec<char>) -> (r: Option<String>)
    requires
        lo <= hi <= cs@.len(),
    ensures
        r matches Some(v) ==> cookie_value(cs@.subrange(lo as int, hi as int), name@) == Some(v@),
        r is None ==> cookie_value(cs@.subrange(lo as int, hi as int), name@) is None,
{
    let ghost pair = cs@.subrange(lo as int, hi as int);
    let (p, q) = trim_range(cs, lo, hi);
    let ghost t = cs@.subrange(p as int, q as int);
    assert(t == trim(pair));
    let k = find_char(cs, p, q, '=');
    if k >= q {
        return None;
    }
    let (ka, kb) = trim_range(cs, p, k);
    assert(cs@.subrange(p as int, k as int) =~= t.take(k - p));
    if !range_eq(cs, ka, kb, name) {
        return None;
    }
    let (va, vb) = trim_range(cs, k + 1, q);
    assert(cs@.subrange(k + 1, q as int) =~= t.skip(k - p + 1));
    let mut v: Vec<char> = Vec::new();
    let mut i = va;
    while i < vb
        invariant
            va <= i <= vb <= cs@.len(),
            v@ == cs@.subrange(va as int, i as int),
        decreases vb - i,
    {
        v.push(cs[i]);
        i = i + 1;
        assert(v@ =~= cs@.subrange(va as int, i as int));
    }
    Some(string_of(v.as_slice()))
}

/// The value of cookie `name` in a `Cookie: a=1; b=2` header string.
pub fn parse_cookie(cookie_header: &str, name: &str) -> (r: Option<String>)
    ensures
        r matches Some(v) ==> find_cookie(cookie_header@, name@) == Some(v@),
        r is None ==> find_cookie(cookie_header@, name@) is None,
{
    let cs = chars_of(cookie_header);
    let nm = chars_of(name);
    let mut start: usize = 0;
    assert(cs@.skip(0) =~= cs@);
    loop
        invariant
            start <= cs@.len(),
            cs@ == cookie_header@,
            nm@ == name@,
            find_cookie(cookie_header@, name@) == find_cookie(cs@.skip(start as int), name@),
        decreases cs@.len() - start,
    {
        let ghost rest = cs@.skip(start as int);
        let end = find_char(&cs, start, cs.len(), ';');
        assert(cs@.subrange(start as int, cs@.len() as int) =~= rest);
        assert(cs@.subrange(start as int, end as int) =~= rest.take(end - start));
        match pair_value(&cs, start, end, &nm) {
            Some(v) => {
                return Some(v);
            },
            None => {
                if end >= cs.len() {
                    return None;
                }
                assert(rest.skip(end - start + 1) =~= cs@.skip(end + 1));
                start = end + 1;
            },
        }
    }
}

/// Whether a cookie name or value has no whitespace, `;` or `=`.
pub open spec fn plain_cookie_text(s: Seq<char>) -> bool {
    forall|i: int| 0 <= i < s.len() ==> !is_white(#[trigger] s[i]) && s[i] != ';' && s[i] != '='
}

/// The `name=value` pair a browser sends back for a cookie.
pub open spec fn cookie_pair(name: Seq<char>, value: Seq<char>) -> Seq<char> {
    name + seq!['='] + value
}

proof fn lemma_trim_plain(s: Seq<char>)
    requires
        forall|i: int| 0 <= i < s.len() ==> !is_white(#[trigger] s[i]),
    ensures
        trim(s) == s,
{
    assert(trim_start(s) == s);
    if s.len() > 0 {
        assert(!is_white(s[s.len() - 1]));
    }
    assert(trim_end(s) == s);
}

proof fn lemma_pair_value(name: Seq<char>, value: Seq<char>, other: Seq<char>)
    requires
        plain_cookie_text(name),
        plain_cookie_text(value),
    ensures
        cookie_value(cookie_pair(name, value), other) == if other == name {
            Some(value)
        } else {
            None::<Seq<char>>
        },
{
    let p = cookie_pair(name, value);
    assert forall|i: int| 0 <= i < p.len() implies !is_white(#[trigger] p[i]) by {
        if i < name.len() {
            assert(p[i] == name[i]);
        } else if i > name.len() {
            assert(p[i] == value[i - name.len() - 1]);
        }
    }
    lemma_trim_plain(p);
    assert(p[name.len() as int] == '=');
    assert forall|i: int| 0 <= i < name.len() implies p[i] != '=' by {
        assert(p[i] == name[i]);
    }
    lemma_first_index_unique(p, '=', name.len() as int);
    assert(p.take(name.len() as int) =~= name);
    assert(p.skip(name.len() as int + 1) =~= value);
    lemma_trim_plain(name);
    lemma_trim_plain(value);
}

/// A `Cookie` header that sends back two cookies gives each one's value:
/// what the session cookies store is what the request's cookies read.
pub proof fn lemma_cookie_header_roundtrip(n1: Seq<char>, v1: Seq<char>, n2: Seq<char>, v2: Seq<char>)
    requires
        plain_cookie_text(n1),
        plain_cookie_text(v1),
        plain_cookie_text(n2),
        plain_cookie_text(v2),
        n1 != n2,
    ensures
        find_cookie(cookie_pair(n1, v1) + seq![';', ' '] + cookie_pair(n2, v2), n1) == Some(v1),
        find_cookie(cookie_pair(n1, v1) + seq![';', ' '] + cookie_pair(n2, v2), n2) == Some(v2),
{
    let p1 = cookie_pair(n1, v1);
    let p2 = cookie_pair(n2, v2);
    let h = p1 + seq![';', ' '] + p2;
    assert forall|i: int| 0 <= i < p1.len() implies h[i] != ';' by {
        assert(h[i] == p1[i]);
        if i < n1.len() {
            assert(p1[i] == n1[i]);
        } else if i > n1.len() {
            assert(p1[i] == v1[i - n1.len() - 1]);
        }
    }
    assert(h[p1.len() as int] == ';');
    lemma_first_index_unique(h, ';', p1.len() as int);
    assert(h.take(p1.len() as int) =~= p1);
    lemma_pair_value(n1, v1, n1);
    lemma_pair_value(n1, v1, n2);
    let q = h.skip(p1.len() as int + 1);
    assert(q =~= seq![' '] + p2);
    assert forall|i: int| 0 <= i < q.len() implies q[i] != ';' by {
        if i > 0 {
            assert(q[i] == p2[i - 1]);
            if i - 1 < n2.len() {
                assert(p2[i - 1] == n2[i - 1]);
            } else if i - 1 > n2.len() {
                assert(p2[i - 1] == v2[i - 1 - n2.len() - 1]);
            }
        }
    }
    lemma_first_index_unique(q, ';', q.len() as int);
    assert(q.take(q.len() as int) =~= q);
    assert(q.drop_first() =~= p2);
    assert(is_white(q[0]));
    assert(trim_start(q) == trim_start(p2));
    lemma_pair_value(n2, v2, n2);
    assert forall|i: int| 0 <= i < p2.len() implies !is_white(#[trigger] p2[i]) by {
        if i < n2.len() {
            assert(p2[i] == n2[i]);
        } else if i > n2.len() {
            assert(p2[i] == v2[i - n2.len() - 1]);
        }
    }
    lemma_trim_plain(p2);
    assert(trim(q) == p2);
    assert(cookie_value(q, n2) == cookie_value(p2, n2));
    assert(find_cookie(q, n2) == Some(v2));
}

/// Cookie attributes of the session cookies; `Secure` is added when the
/// service is served over HTTPS (release builds).
pub open spec fn cookie_flags(secure: bool) -> Seq<char> {
    if secure {
        "HttpOnly; Secure; SameSite=Strict"@
    } else {
        "HttpOnly; SameSite=Strict"@
    }
}

/// The `Set-Cookie` value for a cookie `name` holding `value` for `max_age`
/// seconds.
pub open spec fn set_cookie_value(name: Seq<char>, value: Seq<char>, secure: bool, max_age: nat) -> Seq<char> {
    name + "="@ + value + "; "@ + cookie_flags(secure) + "; Max-Age="@ + decimal(max_age) + "; Path=/"@
}

fn set_cookie(name: &str, value: &str, secure: bool, max_age: u64) -> (s: String)
    ensures
        s@ == set_cookie_value(name@, value@, secure, max_age as nat),
{
    let flags = if secure {
        "HttpOnly; Secure; SameSite=Strict"
    } else {
        "HttpOnly; SameSite=Strict"
    };
    let s = concat(name, "=");
    let s = concat(s.as_str(), value);
    let s = concat(s.as_str(), "; ");
    let s = concat(s.as_str(), flags);
    let s = concat(s.as_str(), "; Max-Age=");
    let age = decimal_string(max_age);
    let s = concat(s.as_str(), age.as_str());
    let s = concat(s.as_str(), "; Path=/");
    s
}

/// The two `Set-Cookie` values that store the access token (15 minutes)
/// and the refresh token (30 days), in that order.
pub fn set_token_cookies(access_token: &str, refresh_token: &str, secure: bool) -> (v: Vec<String>)
    ensures
        v@.len() == 2,
        v@[0]@ == set_cookie_value("access_token"@, access_token@, secure, 900),
        v@[1]@ == set_cookie_value("refresh_token"@, refresh_token@, secure, 2592000),
{
    let mut v: Vec<String> = Vec::new();
    v.push(set_cookie(COOKIE_ACCESS, access_token, secure, ACCESS_TOKEN_TTL_SECONDS));
    v.push(set_cookie(COOKIE_REFRESH, refresh_token, secure, REFRESH_TOKEN_TTL_SECONDS));
    v
}

/// The `Set-Cookie` value that tells the browser to delete cookie `name`.
pub open spec fn clear_cookie_value(name: Seq<char>) -> Seq<char> {
    name + "=; HttpOnly; SameSite=Strict; Max-Age=0; Path=/"@
}

/// The two `Set-Cookie` values that delete the access and refresh cookies.
pub fn clear_token_cookies() -> (v: Vec<String>)
    ensures
        v@.len() == 2,
        v@[0]@ == clear_cookie_value("access_token"@),
        v@[1]@ == clear_cookie_value("refresh_token"@),
{
    let mut v: Vec<String> = Vec::new();
    v.push(concat(COOKIE_ACCESS, "=; HttpOnly; SameSite=Strict; Max-Age=0; Path=/"));
    v.push(concat(COOKIE_REFRESH, "=; HttpOnly; SameSite=Strict; Max-Age=0; Path=/"));
    v
}

// ---------------------------------------------------------------------------
// Authentication of a request
// ---------------------------------------------------------------------------

/// What the refresh path decides for a `Cookie` header at `now`: with a
/// valid refresh token, the request proceeds as its user with fresh access
/// and refresh tokens (the claims keep the refresh token's expiry);
/// otherwise 401.
pub open spec fn refreshes(d: AuthDecision, header: Seq<char>, secret: Seq<char>, now: nat) -> bool {
    match find_cookie(header, "refresh_token"@) {
        None => d is Unauthorized,
        Some(t) => match claims_at(t, secret, now) {
            Ok(c) => if c.2 == "refresh"@ {
                d matches AuthDecision::ProceedRefreshed { claims, access_token, refresh_token }
                    && claims.sub == c.0 && claims.exp as nat == c.1 && claims.token_type@ == "access"@
                    && access_token@ == session_jwt(uuid_hyphenated(c.0), now + 900, "access"@, secret)
                    && refresh_token@ == session_jwt(uuid_hyphenated(c.0), now + 2592000, "refresh"@, secret)
            } else {
                d is Unauthorized
            },
            Err(_) => d is Unauthorized,
        },
    }
}

/// The renewed cookies of a refreshed request read back, at `now`, as a
/// new access token of the user valid for 15 minutes and a new refresh
/// token of the user valid for 30 days; so the next request with them
/// proceeds as that user.
pub open spec fn renewed_tokens_read_back(d: AuthDecision, secret: Seq<char>, now: nat) -> bool {
    d matches AuthDecision::ProceedRefreshed { claims, access_token, refresh_token } ==> {
        &&& session_payload(access_token@, secret) == Some((uuid_hyphenated(claims.sub), now + 900, "access"@))
        &&& session_payload(refresh_token@, secret) == Some(
            (uuid_hyphenated(claims.sub), now + 2592000, "refresh"@),
        )
        &&& claims_at(access_token@, secret, now) == Ok::<_, TokenError>((claims.sub, now + 900, "access"@))
        &&& claims_at(refresh_token@, secret, now) == Ok::<_, TokenError>(
            (claims.sub, now + 2592000, "refresh"@),
        )
    }
}

/// Where a decision's claims come from: a request proceeds only as the
/// user of a valid access cookie, with that token's expiry; a renewal only
/// when the access cookie has expired, as the user of a valid refresh
/// cookie, keeping that token's expiry.
pub open spec fn claims_from_cookies(d: AuthDecision, header: Seq<char>, secret: Seq<char>, now: nat) -> bool {
    &&& d matches AuthDecision::Proceed(x) ==> (find_cookie(header, "access_token"@) matches Some(t)
        && claims_at(t, secret, now) == Ok::<_, TokenError>((x.sub, x.exp as nat, "access"@))
        && x.token_type@ == "access"@)
    &&& d matches AuthDecision::ProceedRefreshed { claims, .. } ==> (find_cookie(header, "refresh_token"@) matches Some(
        t,
    ) && claims_at(t, secret, now) == Ok::<_, TokenError>((claims.sub, claims.exp as nat, "refresh"@))
        && claims.token_type@ == "access"@)
}

/// What a protected route does with a request.
pub enum AuthDecision {
    /// Run the handler with these claims.
    Proceed(Claims),
    /// The access token had expired but the refresh token is good: run the
    /// handler with these claims and attach the new tokens as cookies.
    ProceedRefreshed { claims: Claims, access_token: String, refresh_token: String },
    /// Answer 401.
    Unauthorized,
    /// Answer 500: the signing secret is not configured.
    ServerError,
}

/// What authenticating a request gives: 401 without a `Cookie` header or
/// an access cookie, 500 without a secret; a valid access token proceeds
/// with its claims, an expired one is renewed as `refreshes` says, and any
/// other token is refused.
pub open spec fn authenticates(d: AuthDecision, cookie_header: Option<&str>, secret: Option<&str>, now: nat) -> bool {
    match cookie_header {
        None => d is Unauthorized,
        Some(h) => match find_cookie(h@, "access_token"@) {
            None => d is Unauthorized,
            Some(t) => match secret {
                None => d is ServerError,
                Some(k) => match claims_at(t, k@, now) {
                    Ok(c) => if c.2 == "access"@ {
                        d matches AuthDecision::Proceed(x) && x.sub == c.0 && x.exp as nat == c.1
                            && x.token_type@ == c.2
                    } else {
                        d is Unauthorized
                    },
                    Err(TokenError::Expired) => refreshes(d, h@, k@, now),
                    Err(_) => d is Unauthorized,
                },
            },
        },
    }
}

/// A renewal hands out cookies that work: a later request at the same time
/// whose access cookie is the renewed access token proceeds, as the same
/// user, with an access token valid for 15 minutes.
pub proof fn lemma_renewed_cookies_proceed(
    renewed: AuthDecision,
    next: AuthDecision,
    header: &str,
    secret: &str,
    now: nat,
)
    requires
        renewed matches AuthDecision::ProceedRefreshed { access_token, .. } && find_cookie(header@, "access_token"@)
            == Some(access_token@),
        renewed_tokens_read_back(renewed, secret@, now),
        authenticates(next, Some(header), Some(secret), now),
    ensures
        next matches AuthDecision::Proceed(c) && c.sub == renewed->claims.sub && c.exp as nat == now + 900
            && c.token_type@ == "access"@,
{
}

/// Authenticates a request from its `Cookie` header (`None` when absent or
/// not visible ASCII), the signing secret (`None` when not configured) and
/// the current time in seconds. A valid access token lets the request
/// through; an expired one is replaced when the refresh token is valid; the
/// refreshed claims keep the refresh token's expiry.
pub fn authenticate(cookie_header: Option<&str>, secret: Option<&str>, now: u64) -> (d: AuthDecision)
    requires
        now + REFRESH_TOKEN_TTL_SECONDS <= u64::MAX,
    ensures
        authenticates(d, cookie_header, secret, now as nat),
        d is ProceedRefreshed ==> (secret matches Some(k) && renewed_tokens_read_back(d, k@, now as nat)),
        (d is Proceed || d is ProceedRefreshed) ==> (cookie_header matches Some(h) && secret matches Some(k)
            && claims_from_cookies(d, h@, k@, now as nat)),
        d is ProceedRefreshed ==> (cookie_header matches Some(h) && secret matches Some(k) && find_cookie(
            h@,
            "access_token"@,
        ) matches Some(t) && claims_at(t, k@, now as nat) == Err::<(u128, nat, Seq<char>), _>(TokenError::Expired)),
{
    let header = match cookie_header {
        Some(h) => h,
        None => {
            return AuthDecision::Unauthorized;
        },
    };
    let access = match parse_cookie(header, COOKIE_ACCESS) {
        Some(a) => a,
        None => {
            return AuthDecision::Unauthorized;
        },
    };
    let secret = match secret {
        Some(k) => k,
        None => {
            return AuthDecision::ServerError;
        },
    };
    proof {
        reveal_strlit("access");
    }
    match decode_claims(access.as_str(), secret, now) {
        Ok(c) => {
            if eq_str(c.token_type.as_str(), ACCESS_TOKEN_TYPE) {
                AuthDecision::Proceed(c)
            } else {
                AuthDecision::Unauthorized
            }
        },
        Err(TokenError::Expired) => refresh_access_token(header, secret, now),
        Err(_) => AuthDecision::Unauthorized,
    }
}

/// Replaces an expired access token using the refresh token of the same
/// `Cookie` header.
fn refresh_access_token(cookie_header: &str, secret: &str, now: u64) -> (d: AuthDecision)
    requires
        now + REFRESH_TOKEN_TTL_SECONDS <= u64::MAX,
    ensures
        refreshes(d, cookie_header@, secret@, now as nat),
        renewed_tokens_read_back(d, secret@, now as nat),
        d is ProceedRefreshed || d is Unauthorized,
        claims_from_cookies(d, cookie_header@, secret@, now as nat),
{
    let refresh = match parse_cookie(cookie_header, COOKIE_REFRESH) {
        Some(r) => r,
        None => {
            return AuthDecision::Unauthorized;
        },
    };
    proof {
        reveal_strlit("refresh");
    }
    let data = match decode_claims(refresh.as_str(), secret, now) {
        Ok(c) => c,
        Err(_) => {
            return AuthDecision::Unauthorized;
        },
    };
    if !eq_str(data.token_type.as_str(), REFRESH_TOKEN_TYPE) {
        return AuthDecision::Unauthorized;
    }
    let user_id = data.sub;
    let new_access = create_access_token(user_id, secret, now);
    let new_refresh = create_refresh_token(user_id, secret, now);
    AuthDecision::ProceedRefreshed {
        claims: Claims { sub: user_id, exp: data.exp, token_type: ACCESS_TOKEN_TYPE.to_owned() },
        access_token: new_access,
        refresh_token: new_refresh,
    }
}

} // verus!
