//! Failure kinds of the request pipeline and their mapping to HTTP responses.

use vstd::prelude::*;

verus! {

/// Every way a feed request can fail. Each failure is local to one request;
/// none is fatal to the process.
#[derive(Debug, Clone, Copy, PartialEq, Eq)]
pub enum FeedError {
    /// A rate-limit bucket was empty, or the rate-limit key could not be
    /// extracted from the query string. `retry_after_ms` comes from the
    /// rejecting bucket's refill schedule (0 when no bucket was involved).
    RateLimited { retry_after_ms: u64 },
    /// Connection failure, timeout, or a non-2xx status from upstream.
    UpstreamTransport { status: u16 },
    /// The accumulated upstream response exceeded the byte ceiling.
    UpstreamTooLarge,
    /// The upstream JSON violated the required-field contract.
    UpstreamMalformed,
    /// A bookmark's `created_at` failed RFC 3339 parsing during render.
    TimestampInvalid,
}

impl FeedError {
    /// The HTTP status this failure maps to: 429 for rate limiting,
    /// 500 for everything else.
    pub fn status_code(&self) -> (r: u16)
        ensures
            r == (if self is RateLimited {
                429u16
            } else {
                500u16
            }),
    {
        match self {
            FeedError::RateLimited { .. } => 429,
            _ => 500,
        }
    }

    /// A one-line, human-readable description, safe to return to the caller.
    pub fn message(&self) -> (r: String)
        ensures
            self is RateLimited ==> r@ == "rate limit exceeded"@,
            self is UpstreamTransport ==> r@ == "request to mastodon instance failed"@,
            self is UpstreamTooLarge ==> r@ == "mastodon response too large"@,
            self is UpstreamMalformed ==> r@ == "failed to parse JSON response"@,
            self is TimestampInvalid ==> r@ == "parsing a datetime from mastodon failed"@,
    {
        match self {
            FeedError::RateLimited { .. } => "rate limit exceeded".to_owned(),
            FeedError::UpstreamTransport { .. } => "request to mastodon instance failed".to_owned(),
            FeedError::UpstreamTooLarge => "mastodon response too large".to_owned(),
            FeedError::UpstreamMalformed => "failed to parse JSON response".to_owned(),
            FeedError::TimestampInvalid => "parsing a datetime from mastodon failed".to_owned(),
        }
    }
}

} // verus!
