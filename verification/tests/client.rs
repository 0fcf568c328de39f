//! Sharing connections and sending requests.

use std::sync::Arc;

use h3::error::StreamError;
use http::{HeaderMap, HeaderValue};
use iroh::{EndpointId, SecretKey};
use iroh_h3_client::client::sending::{SendAction, SendEvent, SendState};
use iroh_h3_client::client::{BodyFrame, IrohH3Client, SendStep, SenderStage, SenderStep};
use iroh_h3_client::error::Error;
use iroh_h3_client::peer::{peer_from, peer_id, PeerId};
use iroh_h3_client::request::{Body, Method, RequestBuilder, Version};
use iroh_h3_client::response::Response;
use iroh_h3_client::uri::Uri;

fn id(seed: u8) -> EndpointId {
    SecretKey::from_bytes(&[seed; 32]).public()
}

fn peer(seed: u8) -> PeerId {
    PeerId { bytes: *id(seed).as_bytes() }
}

fn ping(seed: u8) -> String {
    format!("iroh+h3://{}/ping", id(seed))
}

fn client() -> IrohH3Client {
    IrohH3Client::new(b"iroh+h3".to_vec())
}

fn failed() -> StreamError {
    StreamError::HeaderTooBig { actual_size: 2, max_size: 1 }
}

/// Sends a request without trouble, and gives the ticket of the connection that
/// it used, whether it made that connection, and the data that it sent.
fn run(client: &mut IrohH3Client, body: Vec<Vec<u8>>, to: u8) -> (u64, bool, Vec<u8>) {
    let request = client.post(&ping(to)).body(Body::Streaming).unwrap();
    let (mut state, mut action) = client.send(request).unwrap();
    let mut frames = body.into_iter();
    let (mut ticket, mut made, mut sent) = (None, false, Vec::new());
    loop {
        let event = match action {
            SendAction::Await(stage) => {
                made = matches!(stage, SenderStage::CreateOwn(_));
                SendEvent::Connected
            }
            SendAction::Open { ticket: over, request } => {
                assert_eq!(request.head.version, Version::Http3);
                assert_eq!(request.head.method.as_str(), "POST");
                assert_eq!(request.head.uri.as_str(), ping(to));
                ticket = Some(over);
                SendEvent::Done
            }
            SendAction::ReadFrame => {
                SendEvent::Frame(frames.next().map(|data| Ok(BodyFrame::Data(data))))
            }
            SendAction::SendData(data) => {
                sent.extend(data);
                SendEvent::Done
            }
            SendAction::SendTrailers(_) => panic!("trailers"),
            SendAction::Finish => SendEvent::Done,
            SendAction::ReceiveHead => {
                SendEvent::Head(Response {
                    status: 204,
                    version: Version::Http3,
                    headers: HeaderMap::new(),
                })
            }
            SendAction::Respond(response) => {
                assert_eq!(response.status, 204);
                assert_eq!(response.version, Version::Http3);
                assert!(matches!(state, SendState::Over));
                return (ticket.unwrap(), made, sent);
            }
            SendAction::Fail(error) => panic!("{:?}", error),
        };
        (state, action) = client.proceed(state, event);
    }
}

#[test]
fn cached_connection_until_it_closes() {
    let mut client = client();
    assert_eq!(run(&mut client, vec![], 1), (0, true, vec![]));
    let frames = || vec![vec![1, 2], vec![], vec![3]];
    assert_eq!(run(&mut client, frames(), 1), (0, false, vec![1, 2, 3]));
    client.connection_closed(&peer(1));
    assert_eq!(run(&mut client, frames(), 1), (1, true, vec![1, 2, 3]));
    assert!(client.can_connect());
}

#[test]
fn error_handling_unresolvable_peer() {
    let mut client = client();
    let fake_id = EndpointId::from_bytes(b"fsdgh righrfdruigrfiuyrghsidugjm").unwrap();
    let uri = format!("iroh+h3://{}/ping", fake_id);

    let builder = client.get(&uri);
    let (state, action) = builder.send(&mut client).unwrap();
    assert!(matches!(action, SendAction::Await(SenderStage::CreateOwn(0))));
    let cause = Arc::new(Error::Other("no route".to_owned()));
    let (state, action) = client.proceed(state, SendEvent::NotConnected(cause.clone()));
    assert!(matches!(state, SendState::Over));
    let res = match action {
        SendAction::Fail(error) => Err(error),
        _ => Ok(()),
    };
    assert!(res.is_err(), "expected error when sending to an unresolvable peer, got Ok");
    assert!(matches!(res, Err(Error::Shared(shared)) if Arc::ptr_eq(&shared, &cause)));
    let peer = PeerId { bytes: *fake_id.as_bytes() };
    assert_eq!(client.try_get_cached_sender(&peer), None);
}

#[test]
fn peers_do_not_share_connections() {
    let mut client = client();
    let mut tickets = Vec::new();
    for round in 0..3 {
        for seed in 1..=4 {
            tickets.push((seed, client.get_sender(&peer(seed)).ticket()));
        }
        client.connection_closed(&peer(round + 1));
    }
    for (left, one) in &tickets {
        for (right, two) in &tickets {
            assert!(left == right || one != two);
        }
    }
}

#[test]
fn one_setup_per_peer() {
    let mut client = client();
    assert_eq!(client.get_sender(&peer(1)), SenderStage::CreateOwn(0));
    assert_eq!(client.get_sender(&peer(1)), SenderStage::Cached(0));
    assert_eq!(client.coordinate_connection_setup(&peer(1)), SenderStage::TryForeign(0));
    assert_eq!(client.get_sender(&peer(2)), SenderStage::CreateOwn(1));
    assert_eq!(client.try_get_cached_sender(&peer(1)), Some(0));
    assert_eq!(client.try_get_cached_sender(&peer(2)), Some(1));
    assert_eq!(client.try_get_cached_sender(&peer(3)), None);

    // Those that wait learn of the failure first and find the entry still there.
    let step = client.sender_settled(&peer(1), SenderStage::Cached(0), false);
    assert_eq!(step, SenderStep::Await(SenderStage::TryForeign(0)));
    // Then the request that made the attempt removes it.
    let step = client.sender_settled(&peer(1), SenderStage::CreateOwn(0), false);
    assert_eq!(step, SenderStep::Failed);
    assert_eq!(client.try_get_cached_sender(&peer(1)), None);
    // So the next one makes an attempt of its own.
    let step = client.sender_settled(&peer(1), SenderStage::TryForeign(0), false);
    assert_eq!(step, SenderStep::Await(SenderStage::CreateOwn(2)));
    let step = client.sender_settled(&peer(1), SenderStage::CreateOwn(2), true);
    assert_eq!(step, SenderStep::Ready(2));
    assert_eq!(client.try_get_cached_sender(&peer(1)), Some(2));
    assert_eq!(client.try_get_cached_sender(&peer(2)), Some(1));

    client.connection_closed(&peer(1));
    assert_eq!(client.try_get_cached_sender(&peer(1)), None);
    assert_eq!(client.try_get_cached_sender(&peer(2)), Some(1));
    assert_eq!(SenderStage::Cached(4).ticket(), 4);
    assert_eq!(SenderStage::TryForeign(5).ticket(), 5);
    assert_eq!(SenderStage::CreateOwn(6).ticket(), 6);
}

#[test]
fn waiting_request_takes_over_after_a_failure() {
    let mut client = client();
    let first = client.get(&ping(1)).build().unwrap();
    let second = client.get(&ping(1)).build().unwrap();
    let (owner, _) = first.send(&mut client).unwrap();
    let (waiting, action) = second.send(&mut client).unwrap();
    assert!(matches!(action, SendAction::Await(SenderStage::Cached(0))));

    let cause = Arc::new(Error::MissingAuthority);
    let (_, action) = client.proceed(owner, SendEvent::NotConnected(cause.clone()));
    assert!(matches!(action, SendAction::Fail(Error::Shared(_))));
    let (waiting, action) = client.proceed(waiting, SendEvent::NotConnected(cause));
    assert!(matches!(action, SendAction::Await(SenderStage::CreateOwn(1))));
    let (_, action) = client.proceed(waiting, SendEvent::Connected);
    assert!(matches!(action, SendAction::Open { ticket: 1, .. }));
}

#[test]
fn requests_name_their_peer() {
    let mut client = client();
    let no_peer = client.get("/ping").build().unwrap();
    assert!(matches!(client.send(no_peer), Err(Error::MissingAuthority)));
    let bad_peer = client.get("iroh+h3://example.com/ping").build().unwrap();
    match client.send(bad_peer) {
        Err(Error::BadPeerId(error)) => {
            let expected = "example.com".parse::<EndpointId>().unwrap_err();
            assert_eq!(error.to_string(), expected.to_string());
        }
        _ => panic!("no error"),
    }
    let bad_uri = client.get("not a uri");
    assert!(matches!(bad_uri.send(&mut client), Err(Error::Http(_))));
    assert_eq!(client.try_get_cached_sender(&peer(1)), None);

    let request = client.put(&ping(9)).text("x").unwrap();
    let (to, sent) = client.prepare_send(request).unwrap();
    assert!(to.same_as(&peer(9)));
    assert!(!to.same_as(&peer(8)));
    assert_eq!(sent.head.version, Version::Http3);
    assert_eq!(sent.head.headers.get("content-type").unwrap(), "text/plain; charset=utf-8");
    assert!(matches!(sent.body, Body::Bytes(bytes) if bytes == b"x"));
}

#[test]
fn peers_of_uris() {
    let uri = Uri::parse(&ping(5)).unwrap();
    assert_eq!(peer_id(&uri).unwrap().bytes, *id(5).as_bytes());
    let uri = Uri::parse("/ping").unwrap();
    assert!(matches!(peer_id(&uri), Err(Error::MissingAuthority)));
    let uri = Uri::parse("iroh+h3://short/ping").unwrap();
    assert!(matches!(peer_id(&uri), Err(Error::BadPeerId(_))));
    assert_eq!(peer_from(Ok([4; 32])).unwrap().bytes, [4; 32]);
    let error = "short".parse::<EndpointId>().unwrap_err();
    assert!(matches!(peer_from(Err(error)), Err(Error::BadPeerId(_))));
}

#[test]
fn frames_of_a_body() {
    let step = IrohH3Client::send_body(Some(Ok(BodyFrame::Data(vec![1]))));
    assert!(matches!(step, Ok(SendStep::SendData(data)) if data == [1]));
    let mut trailers = HeaderMap::new();
    trailers.insert("x-sum", HeaderValue::from_static("1"));
    let step = IrohH3Client::send_body(Some(Ok(BodyFrame::Trailers(trailers.clone()))));
    assert!(matches!(step, Ok(SendStep::SendTrailers(sent)) if sent == trailers));
    assert!(matches!(IrohH3Client::send_body(Some(Ok(BodyFrame::Other))), Ok(SendStep::Skip)));
    assert!(matches!(IrohH3Client::send_body(None), Ok(SendStep::Finished)));
    let error: http::Error = http::Uri::try_from("").unwrap_err().into();
    assert!(matches!(IrohH3Client::send_body(Some(Err(error))), Err(Error::Http(_))));
}

#[test]
fn trailers_and_other_frames() {
    let mut client = client();
    let mut step = client.proceed(SendState::Opening, SendEvent::Done);
    let mut sent = Vec::new();
    for frame in [
        BodyFrame::Other,
        BodyFrame::Data(vec![1]),
        BodyFrame::Other,
        BodyFrame::Trailers(HeaderMap::new()),
    ] {
        assert!(matches!(step.0, SendState::ReadingBody));
        assert!(matches!(step.1, SendAction::ReadFrame));
        step = client.proceed(step.0, SendEvent::Frame(Some(Ok(frame))));
        match step.1 {
            SendAction::ReadFrame => continue,
            SendAction::SendData(data) => sent.push(data),
            SendAction::SendTrailers(_) => sent.push(b"trailers".to_vec()),
            _ => panic!("neither sent nor skipped"),
        }
        step = client.proceed(step.0, SendEvent::Done);
    }
    assert_eq!(sent, vec![vec![1], b"trailers".to_vec()]);
    let (state, action) = client.proceed(step.0, SendEvent::Frame(None));
    assert!(matches!(state, SendState::Finishing));
    assert!(matches!(action, SendAction::Finish));
    let (state, action) = client.proceed(state, SendEvent::Done);
    assert!(matches!(state, SendState::Receiving));
    assert!(matches!(action, SendAction::ReceiveHead));
}

#[test]
fn failures_end_a_request() {
    let mut client = client();
    client.get_sender(&peer(1));
    for state in [
        SendState::Opening,
        SendState::SendingFrame,
        SendState::Finishing,
        SendState::Receiving,
    ] {
        let (state, action) = client.proceed(state, SendEvent::Failed(failed()));
        assert!(matches!(state, SendState::Over));
        assert!(matches!(
            action,
            SendAction::Fail(Error::Stream(StreamError::HeaderTooBig { actual_size: 2, .. }))
        ));
    }
    let error: http::Error = http::Uri::try_from("").unwrap_err().into();
    let (state, action) =
        client.proceed(SendState::ReadingBody, SendEvent::Frame(Some(Err(error))));
    assert!(matches!(state, SendState::Over));
    assert!(matches!(action, SendAction::Fail(Error::Http(_))));
    assert_eq!(client.try_get_cached_sender(&peer(1)), Some(0));
}

#[test]
fn builder_sends_an_empty_body() {
    let mut client = client();
    let builder = RequestBuilder::new(Method::Delete, &ping(2));
    let (state, _) = builder.send(&mut client).unwrap();
    let (_, action) = client.proceed(state, SendEvent::Connected);
    match action {
        SendAction::Open { ticket, request } => {
            assert_eq!(ticket, 0);
            assert_eq!(request.head.method.as_str(), "DELETE");
            assert!(matches!(request.body, Body::Empty));
        }
        _ => panic!("not opened"),
    }
}
