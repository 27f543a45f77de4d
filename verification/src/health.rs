//! Liveness and readiness reports.

use vstd::prelude::*;
use crate::text::to_owned;

verus! {

/// The version this library reports, the crate's package version.
pub const PACKAGE_VERSION: &'static str = "0.1.0";

#[derive(Debug, Clone)]
pub struct HealthStatus {
    pub status: String,
    pub version: String,
    pub uptime_secs: u64,
}

#[derive(Debug, Clone, Copy, PartialEq, Eq, Structural)]
pub struct ReadinessStatus {
    pub database: bool,
    pub cache: bool,
    pub actors: bool,
}

/// The liveness report: status `ok`, the package version, no uptime.
pub fn health_check() -> (r: HealthStatus)
    ensures
        r.status@ == "ok"@,
        r.version@ == PACKAGE_VERSION@,
        r.uptime_secs == 0,
{
    HealthStatus { status: to_owned("ok"), version: to_owned(PACKAGE_VERSION), uptime_secs: 0 }
}

/// The readiness report: database, cache and actors all ready.
pub fn readiness_check() -> (r: ReadinessStatus)
    ensures
        r == (ReadinessStatus { database: true, cache: true, actors: true }),
{
    ReadinessStatus { database: true, cache: true, actors: true }
}

} // verus!
