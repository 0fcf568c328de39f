//! The errors of the client.
//!
//! [`Error`] gathers what can go wrong while a request is built, sent and
//! answered. Errors of the transport are carried as they came.

use std::sync::Arc;

use h3::error::{ConnectionError, StreamError};
use http::Error as HttpError;
use iroh::endpoint::ConnectError;
use iroh::KeyParsingError;
use serde_json::Error as JsonError;
use vstd::prelude::*;

verus! {

/// Declares the error of the `http` crate.
#[verifier::external_type_specification]
#[verifier::external_body]
pub struct ExHttpError(HttpError);

/// Declares the error of reading an endpoint id.
#[verifier::external_type_specification]
#[verifier::external_body]
pub struct ExKeyParsingError(KeyParsingError);

/// Declares the error of connecting to an endpoint.
#[verifier::external_type_specification]
#[verifier::external_body]
pub struct ExConnectError(ConnectError);

/// Declares the error of an HTTP/3 connection.
#[verifier::external_type_specification]
#[verifier::external_body]
pub struct ExConnectionError(ConnectionError);

/// Declares the error of an HTTP/3 stream.
#[verifier::external_type_specification]
#[verifier::external_body]
pub struct ExStreamError(StreamError);

/// Declares the error of reading or writing JSON.
#[verifier::external_type_specification]
#[verifier::external_body]
pub struct ExJsonError(JsonError);

/// What can go wrong while sending or receiving over HTTP/3.
#[derive(Debug)]
pub enum Error {
    /// The URI has no authority, so it names no peer.
    MissingAuthority,
    /// The authority of the URI is not an endpoint id.
    BadPeerId(KeyParsingError),
    /// A malformed request or response, such as a header that is not valid.
    Http(HttpError),
    /// No connection to the peer could be made.
    Connect(ConnectError),
    /// The connection to the peer failed.
    Connection(ConnectionError),
    /// A stream of the connection failed.
    Stream(StreamError),
    /// A value could not be written as JSON or read from it.
    Json(JsonError),
    /// An error that several tasks share.
    Shared(Arc<Error>),
    /// A response body that should be text is not UTF-8.
    InvalidUtf8(std::str::Utf8Error),
    /// Any other error, with a message.
    Other(String),
}

} // verus!
