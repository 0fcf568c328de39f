//! The server's side of a request stream.
//!
//! Requests are routed elsewhere. What is decided here is how the frames of a
//! request become its body, and how the body of a response goes out.

use h3::error::StreamError;
use vstd::prelude::*;

use crate::response::Received;

verus! {

/// The part of a request body that a read gives, none at its end. Every error of
/// the stream is handed on.
pub open spec fn request_chunk(read: Received) -> Option<Result<Vec<u8>, StreamError>> {
    match read {
        Received::Data(data) => Some(Ok(data)),
        Received::End => None,
        Received::Failed(error) => Some(Err(error)),
    }
}

/// Turns a read into a frame of a request body.
pub fn poll_frame(read: Received) -> (frame: Option<Result<Vec<u8>, StreamError>>)
    ensures
        frame == request_chunk(read),
{
    match read {
        Received::Data(data) => Some(Ok(data)),
        Received::End => None,
        Received::Failed(error) => Some(Err(error)),
    }
}

/// What to do next for a response.
pub enum ReplyStep {
    /// Send the data, then read the next chunk of the body.
    SendData(Vec<u8>),
    /// End the response.
    Finish,
}

/// What comes after reading a chunk of the body of a response, which may have
/// failed with an error of any kind.
pub open spec fn reply_step<E>(chunk: Option<Result<Vec<u8>, E>>) -> ReplyStep {
    match chunk {
        Some(Ok(data)) => ReplyStep::SendData(data),
        _ => ReplyStep::Finish,
    }
}

/// Says what to do with a chunk of the body of a response: a body that ends or
/// fails ends the response.
pub fn reply<E>(chunk: Option<Result<Vec<u8>, E>>) -> (step: ReplyStep)
    ensures
        step == reply_step(chunk),
{
    match chunk {
        Some(Ok(data)) => ReplyStep::SendData(data),
        _ => ReplyStep::Finish,
    }
}

/// The data that a response sends, where `chunks` are read from its body.
pub open spec fn replied<E>(chunks: Seq<Option<Result<Vec<u8>, E>>>) -> Seq<Vec<u8>>
    decreases chunks.len(),
{
    if chunks.len() == 0 {
        Seq::empty()
    } else {
        match reply_step(chunks[0]) {
            ReplyStep::SendData(data) => seq![data] + replied(chunks.skip(1)),
            ReplyStep::Finish => Seq::empty(),
        }
    }
}

/// A response body goes out chunk by chunk, in order, up to its end or its first
/// failure.
pub proof fn law_reply_in_order<E>(data: Seq<Vec<u8>>, rest: Seq<Option<Result<Vec<u8>, E>>>)
    requires
        rest.len() > 0,
        !(rest[0] matches Some(Ok(more))),
    ensures
        replied(data.map_values(|chunk: Vec<u8>| Some(Ok::<Vec<u8>, E>(chunk))) + rest) == data,
    decreases data.len(),
{
    let chunks = data.map_values(|chunk: Vec<u8>| Some(Ok::<Vec<u8>, E>(chunk))) + rest;
    if data.len() == 0 {
        assert(chunks[0] == rest[0]);
    } else {
        let tail = data.skip(1);
        assert(chunks[0] == Some(Ok::<Vec<u8>, E>(data[0])));
        assert(chunks.skip(1) =~= tail.map_values(|chunk: Vec<u8>| Some(Ok::<Vec<u8>, E>(chunk)))
            + rest);
        law_reply_in_order(tail, rest);
        assert(seq![data[0]] + tail =~= data);
    }
}

/// A read of a request body is handed on as it is: data as data, the end as the end
/// and every error as that error.
pub proof fn law_request_body_handed_on(data: Vec<u8>, error: StreamError)
    ensures
        request_chunk(Received::Data(data)) == Some(Ok::<Vec<u8>, StreamError>(data)),
        request_chunk(Received::End) is None,
        request_chunk(Received::Failed(error)) == Some(Err::<Vec<u8>, StreamError>(error)),
{
}

/// A chunk of a response body is sent as it is, whatever it holds; the end of the
/// body and a failure end the response.
pub proof fn law_chunk_sent_as_it_is<E>(data: Vec<u8>, error: E)
    ensures
        reply_step(Some(Ok::<Vec<u8>, E>(data))) == ReplyStep::SendData(data),
        reply_step(Some(Err::<Vec<u8>, E>(error))) is Finish,
        reply_step(None::<Result<Vec<u8>, E>>) is Finish,
{
}

} // verus!
