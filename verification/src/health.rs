//! The health report: the state of each dependency and the overall answer.
use vstd::prelude::*;

use crate::text::concat;

verus! {

/// The body of a health answer.
pub struct HealthResponse {
    /// "healthy" if all checks pass, "degraded" if any fail.
    pub status: &'static str,
    pub postgres: String,
    pub redis: String,
    /// Crate version from Cargo.toml at compile time.
    pub version: &'static str,
    /// Seconds since the server started.
    pub uptime_secs: u64,
}

/// What a report says of one dependency: `ok`, or `error: ` and the
/// failure's text.
pub open spec fn check_text(r: Result<(), String>) -> Seq<char> {
    match r {
        Ok(_) => "ok"@,
        Err(e) => "error: "@ + e@,
    }
}

fn describe(r: &Result<(), String>) -> (s: String)
    ensures
        s@ == check_text(*r),
{
    proof {
        reveal_strlit("ok");
        reveal_strlit("error: ");
    }
    match r {
        Ok(_) => "ok".to_owned(),
        Err(e) => concat("error: ", e.as_str()),
    }
}

/// The health answer from the outcome of a database query and of a cache
/// ping: 200 and `healthy` when both succeeded, 503 and `degraded`
/// otherwise, with each dependency's state.
pub fn health_report(
    postgres: Result<(), String>,
    redis: Result<(), String>,
    version: &'static str,
    uptime_secs: u64,
) -> (r: (u16, HealthResponse))
    ensures
        r.0 == (if postgres is Ok && redis is Ok {
            200u16
        } else {
            503u16
        }),
        r.1.status@ == (if postgres is Ok && redis is Ok {
            "healthy"@
        } else {
            "degraded"@
        }),
        r.1.postgres@ == check_text(postgres),
        r.1.redis@ == check_text(redis),
        r.1.version == version,
        r.1.uptime_secs == uptime_secs,
{
    let healthy = postgres.is_ok() && redis.is_ok();
    proof {
        reveal_strlit("healthy");
        reveal_strlit("degraded");
    }
    let status: &'static str = if healthy {
        "healthy"
    } else {
        "degraded"
    };
    let code: u16 = if healthy {
        200
    } else {
        503
    };
    (
        code,
        HealthResponse {
            status,
            postgres: describe(&postgres),
            redis: describe(&redis),
            version,
            uptime_secs,
        },
    )
}

} // verus!
