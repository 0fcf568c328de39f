//! Reading responses, and the server's side of a stream.

use h3::error::{ConnectionError, StreamError};
use h3::quic::ConnectionErrorIncoming;
use http::{HeaderMap, HeaderValue};
use iroh_h3_client::error::Error;
use iroh_h3_client::request::Version;
use iroh_h3_client::response::{json_type, stream_item, Received, Response};
use iroh_h3_client::server::{poll_frame, reply, ReplyStep};

/// An error of a connection that its peer closed with the code.
fn closed_with(error_code: u64) -> StreamError {
    StreamError::ConnectionError(ConnectionError::Remote(
        ConnectionErrorIncoming::ApplicationClose { error_code },
    ))
}

const NO_ERROR: u64 = 0x100;
const INTERNAL_ERROR: u64 = 0x102;

#[test]
fn body_is_all_data() {
    let mut body = Vec::new();
    assert!(matches!(Response::bytes(&mut body, Received::Data(b"Hel".to_vec())), Ok(true)));
    assert!(matches!(Response::bytes(&mut body, Received::Data(Vec::new())), Ok(true)));
    assert!(matches!(Response::bytes(&mut body, Received::Data(b"lo".to_vec())), Ok(true)));
    assert!(matches!(Response::bytes(&mut body, Received::End), Ok(false)));
    assert_eq!(body, b"Hello");
}

#[test]
fn graceful_close_ends_a_body() {
    let mut body = b"data".to_vec();
    let more = Response::bytes(&mut body, Received::Failed(closed_with(NO_ERROR)));
    assert!(matches!(more, Ok(false)));
    assert_eq!(body, b"data");
    assert!(Response::bytes_stream(Received::Failed(closed_with(NO_ERROR))).is_none());
}

#[test]
fn other_failures_are_reported() {
    let mut body = b"data".to_vec();
    let more = Response::bytes(&mut body, Received::Failed(closed_with(INTERNAL_ERROR)));
    assert!(matches!(more, Err(Error::Stream(StreamError::ConnectionError(_)))));
    let item = Response::bytes_stream(Received::Failed(closed_with(INTERNAL_ERROR)));
    assert!(matches!(item, Some(Err(Error::Stream(_)))));
    let timeout = StreamError::ConnectionError(ConnectionError::Timeout);
    let item = Response::bytes_stream(Received::Failed(timeout));
    assert!(matches!(item, Some(Err(Error::Stream(_)))));
}

#[test]
fn failing_stream_gives_frames_and_error() {
    let reads = vec![
        Received::Data(b"a".to_vec()),
        Received::Data(b"b".to_vec()),
        Received::Failed(closed_with(INTERNAL_ERROR)),
    ];
    let items: Vec<_> = reads.into_iter().map_while(Response::bytes_stream).collect();
    assert_eq!(items.len(), 3);
    assert!(matches!(&items[0], Ok(data) if data == b"a"));
    assert!(matches!(&items[1], Ok(data) if data == b"b"));
    assert!(matches!(&items[2], Err(Error::Stream(_))));
}

#[test]
fn stream_items() {
    let item = Response::bytes_stream(Received::Data(b"x".to_vec()));
    assert!(matches!(item, Some(Ok(data)) if data == b"x"));
    assert!(Response::bytes_stream(Received::End).is_none());
    assert!(stream_item(Received::End, false).is_none());
    assert!(stream_item(Received::Failed(closed_with(INTERNAL_ERROR)), true).is_none());
    assert!(matches!(
        stream_item(Received::Failed(closed_with(NO_ERROR)), false),
        Some(Err(Error::Stream(_)))
    ));
}

#[test]
fn text_read_back() {
    let text = "na\u{ef}ve \u{1f600}";
    let mut body = Vec::new();
    for byte in text.bytes() {
        assert!(Response::bytes(&mut body, Received::Data(vec![byte])).unwrap());
    }
    assert_eq!(Response::text(body).unwrap(), text);
    assert_eq!(Response::text(Vec::new()).unwrap(), "");
}

#[test]
fn text_must_be_utf8() {
    match Response::text(b"ab\xff".to_vec()) {
        Err(Error::InvalidUtf8(error)) => {
            assert_eq!(error, std::str::from_utf8(b"ab\xff").unwrap_err());
            assert_eq!(error.valid_up_to(), 2);
        }
        _ => panic!("no error"),
    }
}

fn response_of_type(value: Option<&'static str>) -> Response {
    let mut headers = HeaderMap::new();
    if let Some(value) = value {
        headers.insert("content-type", HeaderValue::from_static(value));
    }
    Response { status: 200, version: Version::Http3, headers }
}

#[test]
fn json_must_be_declared() {
    for value in [
        "application/json",
        "application/json; charset=utf-8",
        "application/json;",
        " \tApplication/JSON\t ; q=1; r=2",
    ] {
        assert!(response_of_type(Some(value)).json().is_ok(), "{}", value);
        assert!(json_type(&value.as_bytes().to_vec()));
    }
    for value in [
        "",
        ";",
        "  ",
        "text/plain",
        "application/jso",
        "application/jsonp",
        "application/ json",
        "application/problem+json",
        "text/plain; application/json",
    ] {
        match response_of_type(Some(value)).json() {
            Err(Error::Other(text)) => assert_eq!(text, "the content type is not application/json"),
            _ => panic!("{}", value),
        }
    }
    assert!(matches!(response_of_type(None).json(), Err(Error::Other(_))));
}

#[test]
fn request_frames() {
    assert!(matches!(
        poll_frame(Received::Data(b"x".to_vec())),
        Some(Ok(data)) if data == b"x"
    ));
    assert!(poll_frame(Received::End).is_none());
    assert!(matches!(poll_frame(Received::Failed(closed_with(NO_ERROR))), Some(Err(_))));
}

#[test]
fn replies() {
    let chunks: Vec<Option<Result<Vec<u8>, &str>>> =
        vec![Some(Ok(b"a".to_vec())), Some(Ok(Vec::new())), Some(Err("failed")), None];
    let mut sent = Vec::new();
    let mut finished = 0;
    for chunk in chunks {
        match reply(chunk) {
            ReplyStep::SendData(data) => sent.push(data),
            ReplyStep::Finish => finished += 1,
        }
    }
    assert_eq!(sent, vec![b"a".to_vec(), Vec::new()]);
    assert_eq!(finished, 2);
}
