//! Identifiers and instants: user ids (UUIDs held as 128-bit integers),
//! base62 short codes, and UTC instants.
use vstd::prelude::*;

use crate::text::digit_char;

verus! {

// ---------------------------------------------------------------------------
// UUIDs
// ---------------------------------------------------------------------------

/// The `width` least significant hexadecimal digits of `n`, lower case,
/// most significant first, padded with zeros.
pub open spec fn hex_fixed(n: nat, width: nat) -> Seq<char>
    decreases width,
{
    if width == 0 {
        Seq::<char>::empty()
    } else {
        hex_fixed(n / 16, (width - 1) as nat).push(digit_char(n % 16))
    }
}

/// The hyphenated lower-case form of a UUID (`8-4-4-4-12` hexadecimal digits),
/// which is how a `Uuid` displays and serialises.
pub open spec fn uuid_hyphenated(u: u128) -> Seq<char> {
    let h = hex_fixed(u as nat, 32);
    h.subrange(0, 8) + seq!['-'] + h.subrange(8, 12) + seq!['-'] + h.subrange(12, 16) + seq!['-']
        + h.subrange(16, 20) + seq!['-'] + h.subrange(20, 32)
}

/// What `uuid::Uuid::parse_str` reads from a string, as the UUID's 128-bit
/// value; `None` when it rejects the string.
pub uninterp spec fn uuid_parse(s: Seq<char>) -> Option<u128>;

/// Whether a UUID is a random one: version 4 (the four bits from bit 76)
/// and the RFC 4122 variant (the two bits from bit 62 are `10`).
pub open spec fn is_random_uuid(u: u128) -> bool {
    (u >> 76u128) & 0xfu128 == 4 && (u >> 62u128) & 0x3u128 == 2
}

/// Calls `uuid::Uuid::new_v4` and returns the UUID's 128-bit value. The
/// value is random; stated is only that it is a version 4 UUID of the
/// RFC 4122 variant, the bits `new_v4` sets.
#[verifier::external_body]
pub(crate) fn new_uuid() -> (u: u128)
    ensures
        is_random_uuid(u),
{
    uuid::Uuid::new_v4().as_u128()
}

/// Calls `uuid::Uuid::parse_str`; the result is `uuid_parse` of the input.
#[verifier::external_body]
pub(crate) fn parse_uuid(s: &str) -> (r: Option<u128>)
    ensures
        r == uuid_parse(s@),
{
    match uuid::Uuid::parse_str(s) {
        Ok(u) => Some(u.as_u128()),
        Err(_) => None,
    }
}

/// Formats a UUID with `uuid::Uuid::from_u128(u).to_string()`: the
/// hyphenated lower-case form, which `Uuid::parse_str` reads back as `u`.
#[verifier::external_body]
pub(crate) fn uuid_string(u: u128) -> (s: String)
    ensures
        s@ == uuid_hyphenated(u),
        uuid_parse(s@) == Some(u),
{
    uuid::Uuid::from_u128(u).to_string()
}

/// Parses a user id given as a path segment (`Uuid::parse_str`).
pub fn parse_user_id(s: &str) -> (r: Option<u128>)
    ensures
        r == uuid_parse(s@),
{
    parse_uuid(s)
}

/// The hyphenated form of a user id.
pub fn user_id_string(u: u128) -> (s: String)
    ensures
        s@ == uuid_hyphenated(u),
        uuid_parse(s@) == Some(u),
{
    uuid_string(u)
}

/// A fresh random user id (`Uuid::new_v4`): a version 4 UUID.
pub fn fresh_user_id() -> (u: u128)
    ensures
        is_random_uuid(u),
{
    new_uuid()
}

// ---------------------------------------------------------------------------
// Base62 short codes
// ---------------------------------------------------------------------------

/// The base62 digit for `d` (0..=61): `0-9`, then `A-Z`, then `a-z`.
pub open spec fn base62_char(d: nat) -> char {
    if d < 10 {
        (48 + d) as char
    } else if d < 36 {
        (55 + d) as char
    } else {
        (61 + d) as char
    }
}

/// The base62 numeral of `n` in the standard digit order, without leading
/// zeros (`0` is written `"0"`).
pub open spec fn base62(n: nat) -> Seq<char>
    decreases n,
{
    if n < 62 {
        seq![base62_char(n)]
    } else {
        base62(n / 62).push(base62_char(n % 62))
    }
}

/// Calls `base62::encode`, which writes `n` in base62 with the standard
/// digit order (0 to 9, then A to Z, then a to z).
#[verifier::external_body]
fn base62_encode(n: u128) -> (s: String)
    ensures
        s@ == base62(n as nat),
{
    base62::encode(n)
}

/// An `i64` widened to `u128` as `as u128` does (sign-extending).
pub open spec fn widen_to_u128(v: int) -> nat {
    if v >= 0 {
        v as nat
    } else {
        (v + 0x1_0000_0000_0000_0000_0000_0000_0000_0000) as nat
    }
}

/// The short code of the link with row id `id`: `base62::encode(id as u128)`.
pub fn short_code_for(id: i64) -> (s: String)
    ensures
        s@ == base62(widen_to_u128(id as int)),
{
    if id >= 0 {
        base62_encode(id as u128)
    } else {
        let shifted: u128 = (id + i64::MAX + 1) as u128;
        base62_encode(shifted + 0xffff_ffff_ffff_ffff_8000_0000_0000_0000u128)
    }
}

/// The value of a base62 digit character.
pub open spec fn base62_value_of(c: char) -> nat {
    if '0' <= c && c <= '9' {
        (c as int - 48) as nat
    } else if 'A' <= c && c <= 'Z' {
        (c as int - 55) as nat
    } else {
        (c as int - 61) as nat
    }
}

/// The value of a base62 numeral.
pub open spec fn base62_value(s: Seq<char>) -> nat
    decreases s.len(),
{
    if s.len() == 0 {
        0
    } else {
        base62_value(s.drop_last()) * 62 + base62_value_of(s.last())
    }
}

proof fn lemma_base62_char(d: nat)
    requires
        d < 62,
    ensures
        base62_value_of(base62_char(d)) == d,
{
}

/// Reading a base62 numeral back gives the number it was written from.
pub proof fn lemma_base62_value(n: nat)
    ensures
        base62_value(base62(n)) == n,
    decreases n,
{
    lemma_base62_char(n % 62);
    if n < 62 {
        assert(base62(n).drop_last() =~= Seq::<char>::empty());
        assert(base62(n).last() == base62_char(n));
        assert(base62_value(base62(n)) == base62_value(Seq::<char>::empty()) * 62
            + base62_value_of(base62_char(n)));
    } else {
        lemma_base62_value(n / 62);
        assert(base62(n).drop_last() =~= base62(n / 62));
        assert(base62(n).last() == base62_char(n % 62));
    }
}

/// Distinct numbers have distinct base62 numerals, so distinct row ids give
/// distinct short codes.
pub proof fn lemma_base62_injective(a: nat, b: nat)
    requires
        base62(a) == base62(b),
    ensures
        a == b,
{
    lemma_base62_value(a);
    lemma_base62_value(b);
}

// ---------------------------------------------------------------------------
// UTC instants
// ---------------------------------------------------------------------------

/// A UTC instant: seconds since the Unix epoch and the nanoseconds within
/// that second, as a `chrono::DateTime<Utc>` holds it.
#[derive(Clone, Copy, Debug, PartialEq, Eq, Structural)]
pub struct UtcTime {
    pub secs: i64,
    pub nanos: u32,
}

impl UtcTime {
    /// Whether `self` is strictly earlier than `other`.
    pub open spec fn is_before(self, other: UtcTime) -> bool {
        self.secs < other.secs || (self.secs == other.secs && self.nanos < other.nanos)
    }

    /// `self < other`, in the order of `DateTime<Utc>`.
    pub fn before(&self, other: &UtcTime) -> (b: bool)
        ensures
            b == self.is_before(*other),
    {
        self.secs < other.secs || (self.secs == other.secs && self.nanos < other.nanos)
    }
}

/// Calls `chrono::Utc::now`. The instant depends on the clock: nothing is
/// stated of it.
#[verifier::external_body]
pub(crate) fn utc_now() -> (t: UtcTime) {
    let now = chrono::Utc::now();
    UtcTime { secs: now.timestamp(), nanos: now.timestamp_subsec_nanos() }
}

/// The current instant (`chrono::Utc::now()`).
pub fn now() -> UtcTime {
    utc_now()
}

} // verus!
