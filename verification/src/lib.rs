//! A mailing-list signup service core: a per-address sliding-window rate
//! limiter, email syntax validation, and the request-handling decisions
//! around them. Transport, clock and the outbound provider call live
//! outside the library and hand in plain values.

pub mod email;
pub mod handler;
pub mod laws;
pub mod outbound;
pub mod rate_limit;
