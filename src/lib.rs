//! A fixed-size worker pool: the dispatch rules that decide which message
//! each worker takes from the shared queue and how the pool shuts down, and
//! the request routing and response framing of the small server built on it.
pub mod dispatch;
pub mod http;
