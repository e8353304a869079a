//! The request pipeline after admission: upstream status check, bounded
//! accumulation, decode, render. Each stage can fail; any failure
//! short-circuits with its error and no partial output is ever returned.

use vstd::prelude::*;
use vstd::string::StringExecFns;
use crate::decode::decode_bookmarks;
use crate::decode::decode_model;
use crate::decode::json_doc;
use crate::errors::FeedError;
use crate::fetch::MAX_UPSTREAM_RESPONSE_SIZE;
use crate::fetch::check_upstream_status;
use crate::fetch::collect_body;
use crate::fetch::concat_chunks;
use crate::render::render_feed;
use crate::render::render_ok;
use crate::render::render_spec;

verus! {

/// Decode the accumulated upstream body and render the feed for the
/// caller's host. Fails with `UpstreamMalformed` exactly when the body is
/// not a well-formed bookmark array, and with `TimestampInvalid` exactly
/// when it is but some record's `created_at` is not valid RFC 3339.
pub fn feed_from_body(caller_host: &str, body: &Vec<u8>) -> (r: Result<String, FeedError>)
    ensures
        ({
            let decoded_ok = json_doc(body@) is Some && decode_model(json_doc(body@)->0) is Some;
            &&& (r is Ok <==> decoded_ok && render_ok(decode_model(json_doc(body@)->0)->0))
            &&& (r is Ok ==> r->Ok_0@ == render_spec(
                caller_host@,
                decode_model(json_doc(body@)->0)->0,
            ))
            &&& (!decoded_ok <==> r == Err::<String, FeedError>(FeedError::UpstreamMalformed))
            &&& (decoded_ok && !render_ok(decode_model(json_doc(body@)->0)->0) <==> r == Err::<
                String,
                FeedError,
            >(FeedError::TimestampInvalid))
        }),
{
    let bookmarks = match decode_bookmarks(body) {
        Ok(b) => b,
        Err(e) => {
            return Err(e);
        },
    };
    match render_feed(caller_host, &bookmarks) {
        Ok(s) => Ok(s),
        Err(e) => Err(e),
    }
}

/// The whole computable part of one admitted request: given the upstream
/// status and the streamed chunks, check the status, accumulate under the
/// byte ceiling, decode and render.
pub fn handle_upstream_response(caller_host: &str, status: u16, chunks: &Vec<Vec<u8>>) -> (r:
    Result<String, FeedError>)
    ensures
        ({
            let ok_status = 200 <= status < 300;
            let body = concat_chunks(chunks@.map_values(|c: Vec<u8>| c@));
            let fits = body.len() <= MAX_UPSTREAM_RESPONSE_SIZE;
            let decoded_ok = json_doc(body) is Some && decode_model(json_doc(body)->0) is Some;
            &&& (!ok_status ==> r == Err::<String, FeedError>(
                FeedError::UpstreamTransport { status },
            ))
            &&& (ok_status && !fits ==> r == Err::<String, FeedError>(FeedError::UpstreamTooLarge))
            &&& (ok_status && fits ==> {
                &&& (r is Ok <==> decoded_ok && render_ok(decode_model(json_doc(body)->0)->0))
                &&& (r is Ok ==> r->Ok_0@ == render_spec(
                    caller_host@,
                    decode_model(json_doc(body)->0)->0,
                ))
                &&& (!decoded_ok <==> r == Err::<String, FeedError>(FeedError::UpstreamMalformed))
                &&& (decoded_ok && !render_ok(decode_model(json_doc(body)->0)->0) <==> r == Err::<
                    String,
                    FeedError,
                >(FeedError::TimestampInvalid))
            })
        }),
{
    match check_upstream_status(status) {
        Ok(()) => {},
        Err(e) => {
            return Err(e);
        },
    }
    let body = match collect_body(chunks) {
        Ok(b) => b,
        Err(e) => {
            return Err(e);
        },
    };
    feed_from_body(caller_host, &body)
}

/// The upstream endpoint fetched for a host: `https://{host}/api/v1/bookmarks`.
pub fn bookmarks_url(host: &str) -> (r: String)
    ensures
        r@ == "https://"@ + host@ + "/api/v1/bookmarks"@,
{
    let mut s = String::new();
    s.append("https://");
    s.append(host);
    s.append("/api/v1/bookmarks");
    proof {
        assert(s@ =~= "https://"@ + host@ + "/api/v1/bookmarks"@);
    }
    s
}

/// The `Authorization` header value for a bearer token.
pub fn bearer_header(token: &str) -> (r: String)
    ensures
        r@ == "Bearer "@ + token@,
{
    let mut s = String::new();
    s.append("Bearer ");
    s.append(token);
    proof {
        assert(s@ =~= "Bearer "@ + token@);
    }
    s
}

/// The identifying `User-Agent` value, carrying the gateway's own
/// externally visible host. That host comes from the inbound request and
/// is descriptive only — never an input to authorization.
pub fn user_agent(gateway_host: &str) -> (r: String)
    ensures
        r@ == "mastodon-bookmark-rss (+https://"@ + gateway_host@ + ")"@,
{
    let mut s = String::new();
    s.append("mastodon-bookmark-rss (+https://");
    s.append(gateway_host);
    s.append(")");
    proof {
        assert(s@ =~= "mastodon-bookmark-rss (+https://"@ + gateway_host@ + ")"@);
    }
    s
}

} // verus!
