//! The parser for Server-Sent Events.

use std::collections::VecDeque;
use std::sync::Arc;

use iroh_h3_client::error::Error;
use iroh_h3_client::response::sse::{SseAction, SseEvent, SseInput, SseStream};

/// A stream with the body that it reads from.
struct Source {
    stream: SseStream,
    frames: VecDeque<Result<Vec<u8>, Error>>,
}

fn source(frames: Vec<Result<Vec<u8>, Error>>) -> Source {
    Source { stream: SseStream::new(), frames: frames.into() }
}

fn ok_bytes(bytes: &[u8]) -> Result<Vec<u8>, Error> {
    Ok(bytes.to_vec())
}

impl Source {
    /// The next item, as a consumer that polls until one is ready gets it.
    fn next(&mut self) -> Option<Result<SseEvent, Error>> {
        let mut action = self.stream.poll_next(SseInput::Start);
        loop {
            let input = match action {
                SseAction::PollBody => match self.frames.pop_front() {
                    Some(Ok(frame)) => SseInput::Data(frame),
                    Some(Err(error)) => SseInput::Failed(error),
                    None => SseInput::BodyEnd,
                },
                SseAction::Pending { wake } => {
                    assert!(wake);
                    SseInput::Start
                }
                SseAction::Event(event) => return Some(Ok(event)),
                SseAction::Failed(error) => return Some(Err(error)),
                SseAction::End => return None,
            };
            action = self.stream.poll_next(input);
        }
    }

    fn all(&mut self) -> Vec<SseEvent> {
        let mut events = Vec::new();
        while let Some(event) = self.next() {
            events.push(event.unwrap());
        }
        events
    }
}

#[test]
fn simple_event() {
    let mut sse = source(vec![ok_bytes(b"data: hello\n\n")]);

    let event = sse.next().unwrap().unwrap();

    assert_eq!(event.data(), "hello");
    assert_eq!(event.id(), None);
    assert_eq!(event.event(), None);

    // stream ends
    assert!(sse.next().is_none());
}

#[test]
fn split_frames_into_one_event() {
    let mut sse = source(vec![
        ok_bytes(b"da"),
        ok_bytes(b"ta: hel"),
        ok_bytes(b"lo\n"),
        ok_bytes(b"\n"),
    ]);

    let event = sse.next().unwrap().unwrap();
    assert_eq!(event.data(), "hello");
}

#[test]
fn multiple_events_one_frame() {
    let mut sse = source(vec![ok_bytes(b"data: one\n\ndata: two\n\n")]);

    let ev1 = sse.next().unwrap().unwrap();
    let ev2 = sse.next().unwrap().unwrap();

    assert_eq!(ev1.data(), "one");
    assert_eq!(ev2.data(), "two");
}

#[test]
fn event_id_updates_last_event_id() {
    let mut sse = source(vec![
        ok_bytes(b"id: 123\n"),
        ok_bytes(b"data: x\n"),
        ok_bytes(b"\n"),
        ok_bytes(b"id: 456\n"),
        ok_bytes(b"data: y\n\n"),
    ]);

    let e1 = sse.next().unwrap().unwrap();
    assert_eq!(e1.id(), Some("123"));
    assert_eq!(sse.stream.last_event_id(), Some("123"));

    let e2 = sse.next().unwrap().unwrap();
    assert_eq!(e2.id(), Some("456"));
    assert_eq!(sse.stream.last_event_id(), Some("456"));
}

#[test]
fn event_type_parsed() {
    let mut sse = source(vec![ok_bytes(b"event: greeting\n"), ok_bytes(b"data: hi\n\n")]);
    let event = sse.next().unwrap().unwrap();

    assert_eq!(event.event(), Some("greeting"));
    assert_eq!(event.data(), "hi");
}

#[test]
fn multiple_data_lines() {
    let mut sse = source(vec![
        ok_bytes(b"data: a\n"),
        ok_bytes(b"data: b\n"),
        ok_bytes(b"data: c\n\n"),
    ]);
    let event = sse.next().unwrap().unwrap();

    assert_eq!(event.data(), "a\nb\nc");
}

#[test]
fn ignore_unknown_fields() {
    let mut sse = source(vec![ok_bytes(b"foo: bar\n"), ok_bytes(b"data: hi\n\n")]);
    let event = sse.next().unwrap().unwrap();

    assert_eq!(event.data(), "hi");
}

#[test]
fn blank_event() {
    let mut sse = source(vec![
        ok_bytes(b"\n"), // immediate blank event
    ]);

    let event = sse.next().unwrap().unwrap();
    assert_eq!(event.data(), "");
    assert_eq!(event.id(), None);
    assert_eq!(event.event(), None);
}

#[test]
fn trailing_newline_removed() {
    let mut sse = source(vec![ok_bytes(b"data: x\n"), ok_bytes(b"data: y\n"), ok_bytes(b"\n")]);
    let event = sse.next().unwrap().unwrap();

    assert_eq!(event.data(), "x\ny");
}

#[test]
fn incomplete_event_on_eof_is_discarded() {
    let mut sse = source(vec![
        ok_bytes(b"data: incomplete"), // never ends with "\n\n"
    ]);

    assert!(sse.next().is_none());
    assert_eq!(sse.stream.last_event_id(), None);
}

#[test]
fn propagate_stream_error() {
    let err = Arc::new(Error::Other("boom".to_string()));

    let mut sse = source(vec![ok_bytes(b"data: ok\n\n"), Err(Error::Shared(err.clone()))]);

    // first event is okay
    let first = sse.next().unwrap().unwrap();
    assert_eq!(first.data(), "ok");

    // next is error
    let second = sse.next().unwrap();
    assert!(second.is_err());
    assert!(matches!(second, Err(Error::Shared(shared)) if Arc::ptr_eq(&shared, &err)));
}

#[test]
fn events_do_not_depend_on_frames() {
    let body = "id: 1\ndata: caf\u{e9}\n\nevent: ping\n\ndata:  two\ndata: lines\n\n".as_bytes();
    let whole: Vec<_> = source(vec![ok_bytes(body)]).all();
    for size in 1..body.len() {
        let frames = body.chunks(size).map(ok_bytes).collect();
        let split = source(frames).all();
        assert_eq!(split.len(), whole.len());
        for (left, right) in split.iter().zip(&whole) {
            assert_eq!(left.id(), right.id());
            assert_eq!(left.event(), right.event());
            assert_eq!(left.data(), right.data());
        }
    }
    assert_eq!(whole.len(), 3);
    assert_eq!(whole[0].data(), "caf\u{e9}");
    assert_eq!(whole[1].event(), Some("ping"));
    assert_eq!(whole[2].data(), " two\nlines");
}

#[test]
fn cursor_moves_past_lines_of_earlier_frames() {
    let mut sse = source(vec![
        ok_bytes(b"id: 7\ndata: a\n"),
        ok_bytes(b"data: b\n"),
        ok_bytes(b"\ndata: next\n\n"),
    ]);
    let first = sse.next().unwrap().unwrap();
    assert_eq!(first.id(), Some("7"));
    assert_eq!(first.data(), "a\nb");
    let second = sse.next().unwrap().unwrap();
    assert_eq!(second.id(), None);
    assert_eq!(second.data(), "next");
    assert_eq!(sse.stream.last_event_id(), Some("7"));
    assert!(sse.next().is_none());
}

#[test]
fn field_forms() {
    let mut sse = source(vec![ok_bytes(
        b"data\ndata:x\ndata: \t y z \nid:a:b\nevent\n: a comment\ndatax: no\n\n",
    )]);
    let event = sse.next().unwrap().unwrap();
    assert_eq!(event.data(), "\nx\n\t y z ");
    assert_eq!(event.id(), Some("a:b"));
    assert_eq!(event.event(), Some(""));
}

#[test]
fn last_field_of_a_kind_counts() {
    let mut sse = source(vec![ok_bytes(b"id: 1\nid: 2\nevent: a\nevent: b\n\n")]);
    let event = sse.next().unwrap().unwrap();
    assert_eq!(event.id(), Some("2"));
    assert_eq!(event.event(), Some("b"));
    assert_eq!(event.data(), "");
}

#[test]
fn one_leading_space_is_removed() {
    for (line, value) in [
        ("data:x", "x"),
        ("data: x", "x"),
        ("data:  x", " x"),
        ("data:   x", "  x"),
        ("data:\tx", "\tx"),
        ("data: \tx", "\tx"),
        ("data:\u{a0}x", "\u{a0}x"),
        ("data: ", ""),
        ("data:", ""),
        ("data", ""),
        ("data: : ", ": "),
    ] {
        let frame = format!("{}\n\n", line);
        let mut sse = source(vec![ok_bytes(frame.as_bytes())]);
        assert_eq!(sse.next().unwrap().unwrap().data(), value, "{:?}", line);
    }
}

#[test]
fn ids_with_a_null_are_ignored() {
    let mut sse = source(vec![
        ok_bytes(b"id: 1\nid: a\0b\ndata: x\0y\n\n"),
        ok_bytes(b"id: \0\n\n"),
        ok_bytes(b"id: 2\n\n"),
    ]);
    let first = sse.next().unwrap().unwrap();
    assert_eq!(first.id(), Some("1"));
    assert_eq!(first.data(), "x\0y");
    let second = sse.next().unwrap().unwrap();
    assert_eq!(second.id(), None);
    assert_eq!(sse.stream.last_event_id(), Some("1"));
    assert_eq!(sse.next().unwrap().unwrap().id(), Some("2"));
    assert_eq!(sse.stream.last_event_id(), Some("2"));
}

#[test]
fn ill_formed_bytes_are_replaced() {
    let mut sse = source(vec![ok_bytes(b"data: a\xffb\n\n")]);
    let event = sse.next().unwrap().unwrap();
    assert_eq!(event.data(), "a\u{fffd}b");
}

#[test]
fn frames_that_are_not_data_are_passed_over() {
    let mut stream = SseStream::new();
    stream.append_frame(b"data: x\n");
    assert!(matches!(stream.poll_next(SseInput::Start), SseAction::PollBody));
    assert!(matches!(
        stream.poll_next(SseInput::OtherFrame),
        SseAction::Pending { wake: true }
    ));
    assert!(matches!(
        stream.poll_next(SseInput::BodyPending),
        SseAction::Pending { wake: false }
    ));
    stream.append_frame(b"\n");
    match stream.poll_next(SseInput::BodyEnd) {
        SseAction::Event(event) => assert_eq!(event.data(), "x"),
        _ => panic!("no event"),
    }
    assert!(matches!(stream.poll_next(SseInput::BodyEnd), SseAction::End));
}

#[test]
fn empty_frame_changes_nothing() {
    let mut sse = source(vec![ok_bytes(b"data: x"), ok_bytes(b""), ok_bytes(b"y\n\n")]);
    assert_eq!(sse.next().unwrap().unwrap().data(), "xy");
    assert_eq!(SseEvent::default().data(), "");
}
