//! Core of a gateway that turns a Mastodon bookmark list into an RSS feed:
//! dual-tier token-bucket rate limiting, size-bounded accumulation of the
//! upstream response, decoding of the bookmark payload, and injection-safe
//! rendering into XML.

pub mod decode;
pub mod errors;
pub mod escape;
pub mod fetch;
pub mod handler;
pub mod limiter;
pub mod render;
