//! Password hashing strategies: bcrypt with a cost chosen by the run mode,
//! and a plain-text strategy for tests.
use vstd::prelude::*;

use crate::text::eq_str;

verus! {

/// Why a password could not be hashed or checked.
#[derive(Debug)]
pub enum HashError {
    /// bcrypt refused the cost, the stored hash, or could not draw a salt.
    Bcrypt,
}

#[verifier::external_type_specification]
#[verifier::external_body]
pub struct ExBcryptError(bcrypt::BcryptError);

/// What `bcrypt::verify(password, hash)` answers: whether the password
/// matches the stored hash, or `None` when the hash cannot be read.
pub uninterp spec fn bcrypt_check(password: Seq<char>, hash: Seq<char>) -> Option<bool>;

/// Calls `bcrypt::hash(password, cost)`. The salt is random, so the hash is
/// not named; stated: a cost outside 4..=31 is refused, and a hash that comes
/// back is one `bcrypt::verify` accepts for the same password (it re-hashes
/// with the salt and cost stored in the hash).
#[verifier::external_body]
fn bcrypt_hash(password: &str, cost: u32) -> (r: Result<String, bcrypt::BcryptError>)
    ensures
        cost < 4 || cost > 31 ==> r is Err,
        r matches Ok(h) ==> bcrypt_check(password@, h@) == Some(true),
{
    bcrypt::hash(password, cost)
}

/// Calls `bcrypt::verify(password, hash)`; the answer is `bcrypt_check`.
#[verifier::external_body]
fn bcrypt_verify(password: &str, hash: &str) -> (r: Result<bool, bcrypt::BcryptError>)
    ensures
        r matches Ok(b) ==> bcrypt_check(password@, hash@) == Some(b),
        r is Err <==> bcrypt_check(password@, hash@) is None,
{
    bcrypt::verify(password, hash)
}

/// A way of hashing passwords and checking them against stored hashes.
pub trait PasswordHasher {
    /// Whether `plain` matches the stored `hash`; `None` when the hash
    /// cannot be read.
    spec fn matches(&self, plain: Seq<char>, hash: Seq<char>) -> Option<bool>;

    /// Hashes a password; a hash that comes back matches the password.
    fn hash(&self, plain: &str) -> (r: Result<String, HashError>)
        ensures
            r matches Ok(h) ==> self.matches(plain@, h@) == Some(true),
    ;

    /// Checks a password against a stored hash.
    fn verify(&self, plain: &str, hash: &str) -> (r: Result<bool, HashError>)
        ensures
            r matches Ok(b) ==> self.matches(plain@, hash@) == Some(b),
            r is Err <==> self.matches(plain@, hash@) is None,
    ;
}

/// bcrypt at a fixed cost.
pub struct BcryptHasher {
    pub cost: u32,
}

/// The bcrypt cost of a run mode: 4 in `development`, 10 otherwise.
pub open spec fn cost_for_mode(mode: Seq<char>) -> u32 {
    if mode == "development"@ {
        4
    } else {
        10
    }
}

impl BcryptHasher {
    /// The hasher for a run mode: cost 4 in `development` (keeps tests and
    /// local load tests fast), 10 otherwise.
    pub fn from_mode(mode: &str) -> (h: Self)
        ensures
            h.cost == cost_for_mode(mode@),
    {
        let cost = if eq_str(mode, "development") {
            4
        } else {
            10
        };
        Self { cost }
    }
}

impl PasswordHasher for BcryptHasher {
    open spec fn matches(&self, plain: Seq<char>, hash: Seq<char>) -> Option<bool> {
        bcrypt_check(plain, hash)
    }

    fn hash(&self, plain: &str) -> (r: Result<String, HashError>)
        ensures
            self.cost < 4 || self.cost > 31 ==> r is Err,
    {
        match bcrypt_hash(plain, self.cost) {
            Ok(h) => Ok(h),
            Err(_) => Err(HashError::Bcrypt),
        }
    }

    fn verify(&self, plain: &str, hash: &str) -> (r: Result<bool, HashError>) {
        match bcrypt_verify(plain, hash) {
            Ok(b) => Ok(b),
            Err(_) => Err(HashError::Bcrypt),
        }
    }
}

/// A no-cost strategy for tests: the "hash" is the password itself and
/// checking is equality.
pub struct PlainTextHasher;

impl PasswordHasher for PlainTextHasher {
    open spec fn matches(&self, plain: Seq<char>, hash: Seq<char>) -> Option<bool> {
        Some(plain == hash)
    }

    fn hash(&self, plain: &str) -> (r: Result<String, HashError>)
        ensures
            r matches Ok(h) && h@ == plain@,
    {
        Ok(plain.to_owned())
    }

    fn verify(&self, plain: &str, hash: &str) -> (r: Result<bool, HashError>)
        ensures
            r == Ok::<bool, HashError>(plain@ == hash@),
    {
        Ok(eq_str(plain, hash))
    }
}

} // verus!
