//! Middleware: what stands between a client and the wire.

pub mod cookie_jar;
pub mod follow_redirects;
