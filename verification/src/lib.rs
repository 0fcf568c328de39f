//! Building blocks of an HTTP/3 client that reaches its peers by endpoint id.
//!
//! Everything that is decided between a request and its response is here, and
//! nothing that touches the network: each part says what to do next and takes what
//! came of it.
//!
//! - [`request`] builds requests, and [`uri`] and [`peer`] read where they go;
//! - [`client`] shares connections between requests and sends them;
//! - [`response`] reads bodies, and [`response::sse`] the events in them;
//! - [`middleware`] follows redirects and keeps cookies;
//! - [`server`] is the other side of a request stream;
//! - [`discovery`] and [`chat`] serve examples that run in one process;
//! - [`headers`], [`text`] and [`error`] are what the rest stands on.

pub mod chat;
pub mod client;
pub mod discovery;
pub mod error;
pub mod headers;
pub mod middleware;
pub mod peer;
pub mod request;
pub mod response;
pub mod server;
pub mod text;
pub mod uri;
