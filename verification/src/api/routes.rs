//! The server's endpoints (the router matches requests to them) and the limits each
//! group of endpoints runs under (rate limiting spares health checks, index polling,
//! updates and deletions).

use vstd::prelude::*;

use crate::api::server::RouterSettings;

verus! {

/// The endpoints of the server.
#[derive(Clone, Copy, Debug, PartialEq, Eq, Structural)]
pub enum Endpoint {
    /// `GET /health` and `GET /`.
    Health,
    /// `GET /indices`.
    ListIndices,
    /// `POST /indices`.
    CreateIndex,
    /// `GET /indices/{name}`.
    GetIndexInfo,
    /// `DELETE /indices/{name}`.
    DeleteIndex,
    /// `POST /indices/{name}/update`.
    UpdateIndex,
    /// `POST /indices/{name}/documents`.
    AddDocuments,
    /// `DELETE /indices/{name}/documents`.
    DeleteDocuments,
    /// `PUT /indices/{name}/config`.
    UpdateIndexConfig,
    /// `POST /indices/{name}/search`.
    Search,
    /// `POST /indices/{name}/search/filtered`.
    SearchFiltered,
    /// `GET /indices/{name}/metadata`.
    GetAllMetadata,
    /// `GET /indices/{name}/metadata/count`.
    MetadataCount,
    /// `POST /indices/{name}/metadata/check`.
    CheckMetadata,
    /// `POST /indices/{name}/metadata/query`.
    QueryMetadata,
    /// `POST /indices/{name}/metadata/get`.
    GetMetadata,
    /// `POST /indices/{name}/metadata/update`.
    UpdateMetadata,
    /// `GET /swagger-ui` and the pages under it.
    SwaggerUi,
    /// `GET /api-docs/openapi.json`.
    OpenApiSpec,
}

/// The groups of endpoints that share their limits.
#[derive(Clone, Copy, Debug, PartialEq, Eq, Structural)]
pub enum RouteGroup {
    Health,
    /// Index listing and information, polled by clients during long operations.
    IndexInfo,
    /// Index updates, held back by a per-index semaphore.
    Update,
    /// Deletions, which batch internally.
    Delete,
    /// Every other endpoint.
    Api,
}

pub open spec fn group_of(e: Endpoint) -> RouteGroup {
    match e {
        Endpoint::Health => RouteGroup::Health,
        Endpoint::ListIndices | Endpoint::GetIndexInfo => RouteGroup::IndexInfo,
        Endpoint::UpdateIndex => RouteGroup::Update,
        Endpoint::DeleteIndex | Endpoint::DeleteDocuments => RouteGroup::Delete,
        _ => RouteGroup::Api,
    }
}

/// The group of an endpoint.
pub fn route_group(e: Endpoint) -> (g: RouteGroup)
    ensures
        g == group_of(e),
{
    match e {
        Endpoint::Health => RouteGroup::Health,
        Endpoint::ListIndices | Endpoint::GetIndexInfo => RouteGroup::IndexInfo,
        Endpoint::UpdateIndex => RouteGroup::Update,
        Endpoint::DeleteIndex | Endpoint::DeleteDocuments => RouteGroup::Delete,
        _ => RouteGroup::Api,
    }
}

/// The limits a group of endpoints runs under.
#[derive(Debug)]
pub struct RouteLimits {
    pub timeout_secs: u64,
    /// Requests pass the rate limiter.
    pub rate_limited: bool,
    /// Requests count against the limit of requests in flight.
    pub concurrency_limited: bool,
    /// Largest request body accepted, where the group sets one.
    pub body_limit_bytes: Option<usize>,
    /// Cross-origin requests are answered.
    pub cors: bool,
}

/// The limits of `g` under `settings`: health checks and index information time out
/// after 30 s and are never limited; updates and deletions time out after 300 s and
/// count against the requests in flight (updates take bodies of up to 1 GiB); every
/// other endpoint does too, and passes the rate limiter when it is switched on.
pub fn route_limits(g: RouteGroup, settings: &RouterSettings) -> (r: RouteLimits)
    ensures
        r.timeout_secs == (if g == RouteGroup::Health || g == RouteGroup::IndexInfo {
            30u64
        } else {
            300u64
        }),
        r.rate_limited == (g == RouteGroup::Api && settings.rate_limit_enabled),
        r.concurrency_limited == (g == RouteGroup::Update || g == RouteGroup::Delete || g
            == RouteGroup::Api),
        r.body_limit_bytes == (if g == RouteGroup::Update || g == RouteGroup::Api {
            Some(1073741824usize)
        } else {
            None::<usize>
        }),
        r.cors == (g != RouteGroup::Health),
{
    match g {
        RouteGroup::Health => RouteLimits {
            timeout_secs: 30,
            rate_limited: false,
            concurrency_limited: false,
            body_limit_bytes: None,
            cors: false,
        },
        RouteGroup::IndexInfo => RouteLimits {
            timeout_secs: 30,
            rate_limited: false,
            concurrency_limited: false,
            body_limit_bytes: None,
            cors: true,
        },
        RouteGroup::Update => RouteLimits {
            timeout_secs: 300,
            rate_limited: false,
            concurrency_limited: true,
            body_limit_bytes: Some(1073741824),
            cors: true,
        },
        RouteGroup::Delete => RouteLimits {
            timeout_secs: 300,
            rate_limited: false,
            concurrency_limited: true,
            body_limit_bytes: None,
            cors: true,
        },
        RouteGroup::Api => RouteLimits {
            timeout_secs: 300,
            rate_limited: settings.rate_limit_enabled,
            concurrency_limited: true,
            body_limit_bytes: Some(1073741824),
            cors: true,
        },
    }
}

/// The answer to a request that the rate limiter refuses.
#[derive(Debug)]
pub struct RateLimitReply {
    /// HTTP status.
    pub status: u16,
    /// Seconds to wait before retrying (the `retry-after` header and the body field
    /// `retry_after_seconds`).
    pub retry_after_seconds: u64,
    /// The body's `code`.
    pub code: String,
    /// The body's `message`.
    pub message: String,
    /// The `content-type` header.
    pub content_type: String,
}

/// The rate limiter's answer: 429, retry after 2 s, code `RATE_LIMITED`, a JSON body.
pub fn rate_limit_reply() -> (r: RateLimitReply)
    ensures
        r.status == 429,
        r.retry_after_seconds == 2,
        r.code@ == "RATE_LIMITED"@,
        r.message@ == "Too many requests. Please retry after the specified time."@,
        r.content_type@ == "application/json"@,
{
    broadcast use vstd::string::group_string_axioms;

    RateLimitReply {
        status: 429,
        retry_after_seconds: 2,
        code: "RATE_LIMITED".to_string(),
        message: "Too many requests. Please retry after the specified time.".to_string(),
        content_type: "application/json".to_string(),
    }
}

/// A request is rate limited only when rate limiting is switched on and it reaches an
/// endpoint outside health checks, index information, updates and deletions.
pub proof fn lemma_rate_limit_exemptions(e: Endpoint, enabled: bool)
    ensures
        (group_of(e) == RouteGroup::Api && enabled) ==> !(e == Endpoint::Health || e
            == Endpoint::ListIndices || e == Endpoint::GetIndexInfo || e == Endpoint::UpdateIndex
            || e == Endpoint::DeleteIndex || e == Endpoint::DeleteDocuments),
        (e == Endpoint::Search || e == Endpoint::CreateIndex || e == Endpoint::AddDocuments)
            ==> group_of(e) == RouteGroup::Api,
{
}

} // verus!
