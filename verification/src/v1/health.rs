//! The probes: health, readiness and liveness.

use crate::clock::now_rfc3339;
use crate::response::{STATUS_OK, STATUS_SERVICE_UNAVAILABLE};
use vstd::prelude::*;

verus! {

/// What a probe of the database found.
#[derive(Debug, Clone, Copy, PartialEq, Eq, Structural)]
pub enum DatabaseProbe {
    /// A connection was had and a query answered.
    Healthy,
    /// A connection was had, and the query failed.
    QueryFailed,
    /// No connection was had.
    Unavailable,
}

impl DatabaseProbe {
    /// The state of the database in a health report.
    pub open spec fn database(self) -> Seq<char> {
        match self {
            DatabaseProbe::Healthy => "healthy"@,
            DatabaseProbe::QueryFailed => "unhealthy"@,
            DatabaseProbe::Unavailable => "unavailable"@,
        }
    }

    /// The state of the service in a health report.
    pub open spec fn status(self) -> Seq<char> {
        match self {
            DatabaseProbe::Healthy => "ok"@,
            _ => "degraded"@,
        }
    }

    /// The HTTP status of a report: success where the database is healthy,
    /// and else service unavailable.
    pub open spec fn code(self) -> u16 {
        match self {
            DatabaseProbe::Healthy => STATUS_OK,
            _ => STATUS_SERVICE_UNAVAILABLE,
        }
    }

    /// Why the service is not ready, where it is not.
    pub open spec fn reason(self) -> Option<Seq<char>> {
        match self {
            DatabaseProbe::Healthy => None,
            DatabaseProbe::QueryFailed => Some("database query failed"@),
            DatabaseProbe::Unavailable => Some("database connection failed"@),
        }
    }
}

/// The body of a health report.
#[derive(Debug, PartialEq, Eq)]
pub struct HealthResponse {
    pub status: String,
    pub timestamp: String,
    pub database: String,
    pub version: String,
}

/// The body of a readiness report: a ready service gives the time, one
/// that is not ready the reason.
#[derive(Debug, PartialEq, Eq)]
pub struct ReadinessResponse {
    pub status: String,
    pub timestamp: Option<String>,
    pub reason: Option<String>,
}

/// The body of a liveness report.
#[derive(Debug, PartialEq, Eq)]
pub struct LivenessResponse {
    pub status: String,
    pub timestamp: String,
}

/// The health report for what the probe found, written at `timestamp` by
/// the service of the version `version`, with its HTTP status.
pub fn health_report(probe: DatabaseProbe, timestamp: String, version: &str) -> (r: (
    u16,
    HealthResponse,
))
    ensures
        r.0 == probe.code(),
        r.1.status@ == probe.status(),
        r.1.timestamp == timestamp,
        r.1.database@ == probe.database(),
        r.1.version@ == version@,
{
    let database = match probe {
        DatabaseProbe::Healthy => "healthy",
        DatabaseProbe::QueryFailed => "unhealthy",
        DatabaseProbe::Unavailable => "unavailable",
    };
    let healthy = match probe {
        DatabaseProbe::Healthy => true,
        _ => false,
    };
    let response = HealthResponse {
        status: if healthy {
            "ok".to_owned()
        } else {
            "degraded".to_owned()
        },
        timestamp,
        database: database.to_owned(),
        version: version.to_owned(),
    };
    if healthy {
        (STATUS_OK, response)
    } else {
        (STATUS_SERVICE_UNAVAILABLE, response)
    }
}

/// The health report for what the probe found, written now.
pub fn health_check(probe: DatabaseProbe, version: &str) -> (r: (u16, HealthResponse))
    ensures
        r.0 == probe.code(),
        r.1.status@ == probe.status(),
        r.1.database@ == probe.database(),
        r.1.version@ == version@,
{
    health_report(probe, now_rfc3339(), version)
}

/// The readiness report for what the probe found, written at `timestamp`,
/// with its HTTP status.
pub fn readiness_report(probe: DatabaseProbe, timestamp: String) -> (r: (u16, ReadinessResponse))
    ensures
        r.0 == probe.code(),
        r.1.status@ == if probe == DatabaseProbe::Healthy {
            "ready"@
        } else {
            "not ready"@
        },
        r.1.timestamp == if probe == DatabaseProbe::Healthy {
            Some(timestamp)
        } else {
            None
        },
        r.1.reason.deep_view() == probe.reason(),
{
    match probe {
        DatabaseProbe::Healthy => (
            STATUS_OK,
            ReadinessResponse {
                status: "ready".to_owned(),
                timestamp: Some(timestamp),
                reason: None,
            },
        ),
        DatabaseProbe::QueryFailed => (
            STATUS_SERVICE_UNAVAILABLE,
            ReadinessResponse {
                status: "not ready".to_owned(),
                timestamp: None,
                reason: Some("database query failed".to_owned()),
            },
        ),
        DatabaseProbe::Unavailable => (
            STATUS_SERVICE_UNAVAILABLE,
            ReadinessResponse {
                status: "not ready".to_owned(),
                timestamp: None,
                reason: Some("database connection failed".to_owned()),
            },
        ),
    }
}

/// The readiness report for what the probe found, written now.
pub fn readiness_check(probe: DatabaseProbe) -> (r: (u16, ReadinessResponse))
    ensures
        r.0 == probe.code(),
        r.1.status@ == if probe == DatabaseProbe::Healthy {
            "ready"@
        } else {
            "not ready"@
        },
        r.1.timestamp is Some <==> probe == DatabaseProbe::Healthy,
        r.1.reason.deep_view() == probe.reason(),
{
    readiness_report(probe, now_rfc3339())
}

/// The liveness report, written now: a service that answers is alive.
pub fn liveness_check() -> (r: (u16, LivenessResponse))
    ensures
        r.0 == STATUS_OK,
        r.1.status@ == "alive"@,
{
    (STATUS_OK, LivenessResponse { status: "alive".to_owned(), timestamp: now_rfc3339() })
}

} // verus!
