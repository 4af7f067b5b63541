//! Cache policy engine for HTTP responses, following RFC 7234.
//!
//! Given a request, the response it produced, and a clock reading, the
//! engine decides whether the response may be stored, how long it stays
//! fresh, whether a later request may reuse it, which conditional headers
//! to send when revalidating it, and how to merge a `304 Not Modified`
//! answer back into the stored entry.
//!
//! Every decision is specified in `model` as a function over views and
//! proved of the executable methods in `policy`; the engine-wide laws
//! live in `laws`.

pub mod chars;
pub mod date;
pub mod directives;
pub mod headers;
pub mod laws;
pub mod lists;
pub mod model;
pub mod names;
pub mod policy;
pub mod strutil;

pub use headers::Headers;
pub use policy::{CacheOptions, CachePolicy, Request, Response};
