//! A forwarding tunnel for error-reporting envelopes: a browser posts an
//! envelope to a same-origin endpoint, which relays it to the real ingestion
//! service named inside the payload itself — while refusing to act as an
//! open relay.
//!
//! The pipeline runs, per request: [`gate`] bounds the declared content
//! length before the body is read; [`text`] computes the safe text view of
//! the raw bytes; [`scanner`] walks the leading header lines for the
//! destination descriptor ([`dsn`]); [`policy`] gates the decision on the
//! host and project allow-lists; and [`envelope`] builds the outbound
//! request, carrying the original bytes verbatim. [`tunnel`] ties the stages
//! together. Each stage is a total function over its inputs; nothing is
//! retried and no state outlives a request.
use vstd::prelude::*;

pub mod gate;
pub mod text;
pub mod json;
pub mod dsn;
pub mod scanner;
pub mod policy;
pub mod envelope;
pub mod tunnel;

verus! {

/// Largest accepted `Content-Length` for an inbound envelope, in bytes.
pub const MAX_CONTENT_SIZE: u64 = 10_000_000;

} // verus!
