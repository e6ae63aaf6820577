//! Core logic of a URL shortener with OTP sign-up and JWT sessions.
use vstd::prelude::*;

pub mod text;
pub mod config;
pub mod ids;
pub mod hashing;
pub mod session;
pub mod users;
pub mod urls;
pub mod url_api;
pub mod clicks;
pub mod messaging;
pub mod otp;
pub mod health;

verus! {

} // verus!
