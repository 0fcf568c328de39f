//! Requests that the library builds, answered by a router in the same process.

use std::collections::{BTreeMap, VecDeque};
use std::convert::Infallible;

use axum::body::Body as AxumBody;
use axum::response::sse::{Event, Sse};
use axum::response::IntoResponse;
use axum::routing::{get, post};
use axum::{Json, Router};
use bytes::Bytes;
use futures::executor::block_on;
use futures::stream;
use futures::StreamExt;
use http_body_util::BodyExt;
use iroh_h3_client::client::sending::{SendAction, SendEvent};
use iroh_h3_client::client::{BodyFrame, IrohH3Client, SenderStage};
use iroh_h3_client::error::Error;
use iroh_h3_client::request::{Body, Request, RequestHead, Version};
use iroh_h3_client::response::sse::{SseAction, SseEvent, SseInput, SseStream};
use iroh_h3_client::response::{Received, Response};
use tower_service::Service;

const PING: &str = "Ping!";
const PONG: &str = "Pong!";

fn client() -> IrohH3Client {
    IrohH3Client::new(b"iroh+h3".to_vec())
}

fn uri(path: &str) -> String {
    let id = iroh::SecretKey::from_bytes(&[3; 32]).public();
    format!("iroh+h3://{}{}", id, path)
}

/// What a request put on the wire.
struct Wire {
    ticket: u64,
    made: bool,
    head: RequestHead,
    frames: Vec<Vec<u8>>,
}

/// Sends a request whose body is read as `frames`, up to where its response is
/// awaited.
fn transmit(client: &mut IrohH3Client, request: Request, frames: Vec<Vec<u8>>) -> Wire {
    let mut frames = frames.into_iter();
    let (mut state, mut action) = client.send(request).unwrap();
    let (mut made, mut opened, mut sent) = (false, None, Vec::new());
    loop {
        let event = match action {
            SendAction::Await(stage) => {
                made = matches!(stage, SenderStage::CreateOwn(_));
                SendEvent::Connected
            }
            SendAction::Open { ticket, request } => {
                opened = Some((ticket, request.head));
                SendEvent::Done
            }
            SendAction::ReadFrame => {
                SendEvent::Frame(frames.next().map(|data| Ok(BodyFrame::Data(data))))
            }
            SendAction::SendData(data) => {
                sent.push(data);
                SendEvent::Done
            }
            SendAction::Finish => SendEvent::Done,
            SendAction::ReceiveHead => {
                let (ticket, head) = opened.unwrap();
                return Wire { ticket, made, head, frames: sent };
            }
            SendAction::SendTrailers(_) | SendAction::Respond(_) => panic!("not sent"),
            SendAction::Fail(error) => panic!("{:?}", error),
        };
        (state, action) = client.proceed(state, event);
    }
}

/// Hands what is on the wire to a router, and gives the head of the response and
/// the data frames of its body.
fn deliver(router: &Router, wire: Wire) -> (Response, VecDeque<Vec<u8>>) {
    assert_eq!(wire.head.version, Version::Http3);
    let path = wire.head.uri.as_str().split("://").nth(1).unwrap();
    let path = &path[path.find('/').unwrap()..];
    let chunks = wire.frames.into_iter().map(|data| Ok::<_, Infallible>(Bytes::from(data)));
    let mut sent = http::Request::builder()
        .method(wire.head.method.as_str())
        .uri(path)
        .body(AxumBody::from_stream(stream::iter(chunks)))
        .unwrap();
    *sent.headers_mut() = wire.head.headers;
    block_on(async {
        let response = router.clone().call(sent).await.unwrap();
        let (parts, body) = response.into_parts();
        let mut frames = VecDeque::new();
        let mut data = body.into_data_stream();
        while let Some(chunk) = data.next().await {
            frames.push_back(chunk.unwrap().to_vec());
        }
        let head = Response {
            status: parts.status.as_u16(),
            version: Version::Http3,
            headers: parts.headers,
        };
        (head, frames)
    })
}

/// The frames of a body that is held.
fn frames_of(request: &Request) -> Vec<Vec<u8>> {
    match &request.body {
        Body::Empty => Vec::new(),
        Body::Bytes(bytes) => vec![bytes.clone()],
        Body::Streaming => panic!("a body that is not held"),
    }
}

/// Sends a request whose body is held over a new client, and hands it to a router.
fn answer(router: &Router, request: Request) -> (Response, VecDeque<Vec<u8>>) {
    let frames = frames_of(&request);
    deliver(router, transmit(&mut client(), request, frames))
}

/// Starts requests for one peer all at once, then connects and delivers each, and
/// gives the tickets that they used and the bodies of the responses.
fn burst(
    client: &mut IrohH3Client,
    router: &Router,
    requests: Vec<Request>,
) -> Vec<(u64, Vec<u8>)> {
    let started: Vec<_> = requests
        .into_iter()
        .map(|request| (frames_of(&request), client.send(request).unwrap()))
        .collect();
    let mut answered = Vec::new();
    for (frames, (state, action)) in started {
        assert!(matches!(action, SendAction::Await(_)));
        match client.proceed(state, SendEvent::Connected).1 {
            SendAction::Open { ticket, request } => {
                let wire = Wire { ticket, made: false, head: request.head, frames };
                let body = read_all(deliver(router, wire).1).unwrap();
                answered.push((ticket, body));
            }
            _ => panic!("not opened"),
        }
    }
    answered
}

fn received(frames: &mut VecDeque<Vec<u8>>) -> Received {
    match frames.pop_front() {
        Some(data) => Received::Data(data),
        None => Received::End,
    }
}

fn read_all(mut frames: VecDeque<Vec<u8>>) -> Result<Vec<u8>, Error> {
    let mut body = Vec::new();
    while Response::bytes(&mut body, received(&mut frames))? {}
    Ok(body)
}

fn events(mut frames: VecDeque<Vec<u8>>) -> Vec<SseEvent> {
    let mut stream = SseStream::new();
    let mut events = Vec::new();
    let mut action = stream.poll_next(SseInput::Start);
    loop {
        let input = match action {
            SseAction::PollBody => match frames.pop_front() {
                Some(frame) => SseInput::Data(frame),
                None => SseInput::BodyEnd,
            },
            SseAction::Pending { .. } => SseInput::Start,
            SseAction::Event(event) => {
                events.push(event);
                SseInput::Start
            }
            SseAction::Failed(error) => panic!("{:?}", error),
            SseAction::End => return events,
        };
        action = stream.poll_next(input);
    }
}

#[test]
fn basic_get_and_headers() {
    async fn hello() -> impl IntoResponse {
        (axum::response::AppendHeaders([("x-test", "value")]), "Hello, World!")
    }
    let app = Router::new().route("/hello", get(hello));

    let request = client().get(&uri("/hello")).build().unwrap();
    let (response, frames) = answer(&app, request);

    let header = response.headers.get("x-test").unwrap();
    assert_eq!(header, "value");

    let body = read_all(frames).unwrap();
    assert_eq!(body, b"Hello, World!");
}

/// An object with the one field `message`.
type Message = BTreeMap<String, String>;

fn message(text: &str) -> Message {
    Message::from([("message".to_owned(), text.to_owned())])
}

#[test]
fn headers() {
    async fn ping(Json(message): Json<Message>) -> impl IntoResponse {
        assert_eq!(message["message"], PING);
        Json(self::message(PONG))
    }
    let app = Router::new().route("/ping", post(ping));

    let message = message(PING);
    let request = client().post(&uri("/ping")).json(serde_json::to_vec(&message)).unwrap();

    let (response, frames) = answer(&app, request);
    assert_eq!(response.headers.get("Content-Type").unwrap(), "application/json");
    assert!(response.json().is_ok());
    let response_message: Message = serde_json::from_slice(&read_all(frames).unwrap()).unwrap();
    assert_eq!(response_message["message"], PONG);
}

const PING_COUNT: usize = 100;

async fn ping_body(body: AxumBody) -> impl IntoResponse {
    let body = body.collect().await.unwrap();
    assert_eq!(body.to_bytes(), PING);
    PONG
}

fn ping_request(client: &IrohH3Client) -> Request {
    client.post(&uri("/ping")).bytes(PING.as_bytes().to_vec()).unwrap()
}

#[test]
fn many_requests() {
    let app = Router::new().route("/ping", post(ping_body));
    let mut client = client();
    for i in 0..PING_COUNT {
        let request = ping_request(&client);
        let frames = frames_of(&request);
        let wire = transmit(&mut client, request, frames);
        assert_eq!((wire.ticket, wire.made), (0, i == 0));
        let (_, frames) = deliver(&app, wire);
        assert_eq!(read_all(frames).unwrap(), PONG.as_bytes());
    }
    let requests = (0..PING_COUNT).map(|_| ping_request(&client)).collect();
    let answered = burst(&mut client, &app, requests);
    assert_eq!(answered, vec![(0, PONG.as_bytes().to_vec()); PING_COUNT]);
}

#[test]
fn request_burst() {
    let app = Router::new().route("/ping", post(ping_body));
    let mut client = client();
    let requests = (0..PING_COUNT).map(|_| ping_request(&client)).collect();
    let answered = burst(&mut client, &app, requests);
    assert_eq!(answered, vec![(0, PONG.as_bytes().to_vec()); PING_COUNT]);
}

#[test]
fn many_requests_connection_reuse() {
    async fn ping() -> &'static str {
        "Pong!"
    }
    let app = Router::new().route("/ping", post(ping));
    let mut client = client();
    for i in 0..10 {
        let request = client.post(&uri("/ping")).build().unwrap();
        let wire = transmit(&mut client, request, Vec::new());
        assert_eq!((wire.ticket, wire.made), (0, i == 0));
        let (_, frames) = deliver(&app, wire);
        assert_eq!(read_all(frames).unwrap(), b"Pong!");
    }
    let requests = (0..50).map(|_| client.post(&uri("/ping")).build().unwrap()).collect();
    let answered = burst(&mut client, &app, requests);
    assert_eq!(answered, vec![(0, b"Pong!".to_vec()); 50]);
}

#[test]
fn streaming_bodies() {
    const PING_COUNT: usize = 5;
    const PONG_COUNT: usize = 7;

    async fn streaming_ping(body: AxumBody) -> impl IntoResponse {
        let mut body_stream = body.into_data_stream();
        let mut counter = 0;
        while let Some(chunk) = body_stream.next().await {
            assert_eq!(chunk.unwrap(), PING.as_bytes());
            counter += 1;
        }
        assert_eq!(counter, PING_COUNT);
        let pong_bytes = Bytes::from_static(PONG.as_bytes());
        let ok_pong = Ok::<Bytes, Infallible>(pong_bytes);
        AxumBody::from_stream(stream::repeat(ok_pong).take(PONG_COUNT))
    }
    let app = Router::new().route("/streaming-ping", post(streaming_ping));

    let mut client = client();
    let request = client.post(&uri("/streaming-ping")).body(Body::Streaming).unwrap();
    let pings = vec![PING.as_bytes().to_vec(); PING_COUNT];
    let wire = transmit(&mut client, request, pings);
    assert_eq!(wire.frames, vec![PING.as_bytes(); PING_COUNT]);

    let (_, mut frames) = deliver(&app, wire);
    let mut counter = 0;
    while let Some(chunk) = Response::bytes_stream(received(&mut frames)) {
        assert_eq!(chunk.unwrap(), PONG.as_bytes());
        counter += 1;
    }
    assert_eq!(counter, PONG_COUNT);
}

#[test]
fn sse_stream() {
    async fn hello() -> impl IntoResponse {
        let event = Event::default().data("some data");
        let event_result = Ok::<_, Infallible>(event);
        Sse::new(stream::repeat(event_result).take(10))
    }
    let app = Router::new().route("/hello", get(hello));

    let request = client().get(&uri("/hello")).build().unwrap();
    let (_, frames) = answer(&app, request);

    let mut counter = 0;
    for event in events(frames) {
        counter += 1;
        assert_eq!(event.data(), "some data");
    }
    assert_eq!(counter, 10);
}

#[test]
fn sse_stream_edge_cases() {
    async fn edge_case_handler() -> impl IntoResponse {
        let events = vec![
            Event::default().data("simple"),
            Event::default().data("line1\nline2"),
            Event::default().data(""), // empty data line
            Event::default().data("payload").id("42").event("custom"),
        ];
        Sse::new(stream::iter(events.into_iter().map(Ok::<_, Infallible>)))
    }
    let app = Router::new().route("/sse", get(edge_case_handler));

    let request = client().get(&uri("/sse")).build().unwrap();
    let (_, frames) = answer(&app, request);
    let events = events(frames);

    assert_eq!(events.len(), 4);
    assert_eq!(events[0].data(), "simple");
    assert_eq!(events[1].data(), "line1\nline2");
    assert_eq!(events[2].data(), "");
    assert_eq!(events[3].id(), Some("42"));
    assert_eq!(events[3].event(), Some("custom"));
    assert_eq!(events[3].data(), "payload");
}
