//! How a request goes out and its response comes in.
//!
//! Sending alternates between decisions, which are made here, and work that only
//! the transport can do. [`IrohH3Client::send`] starts a request and names the
//! first piece of work; [`IrohH3Client::proceed`] takes what came of it and names
//! the next, until the request is over.

use std::sync::Arc;

use h3::error::StreamError;
use http::{Error as HttpError, HeaderMap, HeaderValue};
use vstd::prelude::*;

use crate::client::{
    after_claim, after_settle, as_http3, get_stage, has_ticket, send_step, settle, BodyFrame, IrohH3Client, SendStep,
    SenderStage, SenderStep, Senders,
};
use crate::error::Error;
use crate::peer::{is_peer_of, parsed_endpoint_id, PeerId};
use crate::request::{BodyView, HeadView, Request, RequestBuilder, Version};
use crate::response::Response;

verus! {

/// How far a request has come.
pub enum SendState {
    /// It waits for a connection to the peer.
    Connecting { peer: PeerId, request: Request, stage: SenderStage },
    /// It opens a stream.
    Opening,
    /// It reads the next frame of its body.
    ReadingBody,
    /// It sends a frame of its body.
    SendingFrame,
    /// It ends its side of the stream.
    Finishing,
    /// It waits for the head of the response.
    Receiving,
    /// It has been answered or has failed.
    Over,
}

/// What to do next for a request.
pub enum SendAction {
    /// Wait for the connection of the stage, after starting to make it where the
    /// stage says so.
    Await(SenderStage),
    /// Open a stream over the connection with the ticket, with the head of the
    /// request.
    Open { ticket: u64, request: Request },
    /// Read the next frame of the body.
    ReadFrame,
    /// Send data.
    SendData(Vec<u8>),
    /// Send trailers.
    SendTrailers(HeaderMap<HeaderValue>),
    /// End this side of the stream.
    Finish,
    /// Wait for the head of the response.
    ReceiveHead,
    /// Answer the request with the response.
    Respond(Response),
    /// Fail with the error.
    Fail(Error),
}

/// What came of an action.
pub enum SendEvent {
    /// The connection has been made.
    Connected,
    /// The connection could not be made.
    NotConnected(Arc<Error>),
    /// The stream is open, the frame has been sent or the side has ended.
    Done,
    /// The next frame of the body, none at its end.
    Frame(Option<Result<BodyFrame, HttpError>>),
    /// The head of the response.
    Head(Response),
    /// The stream failed.
    Failed(StreamError),
}

/// Whether `event` can come of what a request in `state` was told to do.
pub open spec fn expects(state: SendState, event: SendEvent) -> bool {
    match state {
        SendState::Connecting { .. } => event is Connected || event is NotConnected,
        SendState::Opening | SendState::SendingFrame | SendState::Finishing => event is Done
            || event is Failed,
        SendState::ReadingBody => event is Frame,
        SendState::Receiving => event is Head || event is Failed,
        SendState::Over => false,
    }
}

/// What comes after reading from a body.
pub open spec fn after_read(
    read: Option<Result<BodyFrame, HttpError>>,
) -> (SendState, SendAction) {
    match send_step(read) {
        Ok(SendStep::SendData(data)) => (SendState::SendingFrame, SendAction::SendData(data)),
        Ok(SendStep::SendTrailers(trailers)) => (
            SendState::SendingFrame,
            SendAction::SendTrailers(trailers),
        ),
        Ok(SendStep::Skip) => (SendState::ReadingBody, SendAction::ReadFrame),
        Ok(SendStep::Finished) => (SendState::Finishing, SendAction::Finish),
        Err(error) => (SendState::Over, SendAction::Fail(error)),
    }
}

/// What comes after waiting for a connection.
pub open spec fn after_wait(
    senders: Senders,
    peer: PeerId,
    request: Request,
    stage: SenderStage,
    event: SendEvent,
) -> (SendState, SendAction) {
    match settle(senders, peer@, stage, event is Connected) {
        SenderStep::Await(next) => (
            SendState::Connecting { peer, request, stage: next },
            SendAction::Await(next),
        ),
        SenderStep::Ready(ticket) => (SendState::Opening, SendAction::Open { ticket, request }),
        SenderStep::Failed => (
            SendState::Over,
            SendAction::Fail(Error::Shared(event->NotConnected_0)),
        ),
    }
}

/// What comes after `event`, where a client has the connections `senders`.
pub open spec fn next_step(
    senders: Senders,
    state: SendState,
    event: SendEvent,
) -> (SendState, SendAction) {
    match (state, event) {
        (SendState::Connecting { peer, request, stage }, _) => after_wait(
            senders,
            peer,
            request,
            stage,
            event,
        ),
        (_, SendEvent::Failed(error)) => (SendState::Over, SendAction::Fail(Error::Stream(error))),
        (_, SendEvent::Frame(read)) => after_read(read),
        (_, SendEvent::Head(response)) => (SendState::Over, SendAction::Respond(response)),
        (SendState::Finishing, _) => (SendState::Receiving, SendAction::ReceiveHead),
        _ => (SendState::ReadingBody, SendAction::ReadFrame),
    }
}

/// The connections of a client after `event`.
pub open spec fn next_senders(
    senders: Senders,
    state: SendState,
    event: SendEvent,
) -> Senders {
    match state {
        SendState::Connecting { peer, request, stage } => after_settle(
            senders,
            peer@,
            stage,
            event is Connected,
        ),
        _ => senders,
    }
}

/// Whether `started` is how `request` starts, where a client has the connections
/// `before`, and the connections `after` once it has started.
pub open spec fn starts_sending(
    before: Senders,
    request: Request,
    started: Result<(SendState, SendAction), Error>,
    after: Senders,
) -> bool {
    match started {
        Ok((SendState::Connecting { peer, request: ready, stage }, action)) => {
            &&& is_peer_of(request.head@.uri.authority, Ok(peer))
            &&& ready == as_http3(request)
            &&& stage == get_stage(before, peer@)
            &&& action == SendAction::Await(stage)
            &&& after == after_claim(before, peer@)
        },
        Ok(_) => false,
        Err(error) => is_peer_of(request.head@.uri.authority, Err(error)) && after == before,
    }
}

impl IrohH3Client {
    /// Starts to send a request to the peer that its URI names, over the cached
    /// connection or one that is made for it.
    pub fn send(&mut self, request: Request) -> (started: Result<
        (SendState, SendAction),
        Error,
    >)
        requires
            old(self).wf(),
            has_ticket(old(self).senders()),
        ensures
            final(self).wf(),
            starts_sending(
                old(self).senders(),
                request,
                started,
                final(self).senders(),
            ),
            final(self).protocol() == old(self).protocol(),
    {
        match self.prepare_send(request) {
            Ok((peer, request)) => {
                let stage = self.get_sender(&peer);
                Ok((SendState::Connecting { peer, request, stage }, SendAction::Await(stage)))
            },
            Err(error) => Err(error),
        }
    }

    /// Goes on with a request, given what came of the last action.
    pub fn proceed(&mut self, state: SendState, event: SendEvent) -> (step: (
        SendState,
        SendAction,
    ))
        requires
            old(self).wf(),
            expects(state, event),
            event is NotConnected ==> has_ticket(old(self).senders()),
        ensures
            final(self).wf(),
            step == next_step(old(self).senders(), state, event),
            final(self).senders() == next_senders(old(self).senders(), state, event),
            final(self).protocol() == old(self).protocol(),
    {
        match (state, event) {
            (SendState::Connecting { peer, request, stage }, SendEvent::NotConnected(error)) => {
                match self.sender_settled(&peer, stage, false) {
                    SenderStep::Await(next) => (
                        SendState::Connecting { peer, request, stage: next },
                        SendAction::Await(next),
                    ),
                    SenderStep::Ready(ticket) => (
                        SendState::Opening,
                        SendAction::Open { ticket, request },
                    ),
                    SenderStep::Failed => (
                        SendState::Over,
                        SendAction::Fail(Error::Shared(error)),
                    ),
                }
            },
            (SendState::Connecting { request, stage, .. }, _) => (
                SendState::Opening,
                SendAction::Open { ticket: stage.ticket(), request },
            ),
            (_, SendEvent::Failed(error)) => (
                SendState::Over,
                SendAction::Fail(Error::Stream(error)),
            ),
            (_, SendEvent::Frame(read)) => match Self::send_body(read) {
                Ok(SendStep::SendData(data)) => (
                    SendState::SendingFrame,
                    SendAction::SendData(data),
                ),
                Ok(SendStep::SendTrailers(trailers)) => (
                    SendState::SendingFrame,
                    SendAction::SendTrailers(trailers),
                ),
                Ok(SendStep::Skip) => (SendState::ReadingBody, SendAction::ReadFrame),
                Ok(SendStep::Finished) => (SendState::Finishing, SendAction::Finish),
                Err(error) => (SendState::Over, SendAction::Fail(error)),
            },
            (_, SendEvent::Head(response)) => (SendState::Over, SendAction::Respond(response)),
            (SendState::Finishing, _) => (SendState::Receiving, SendAction::ReceiveHead),
            _ => (SendState::ReadingBody, SendAction::ReadFrame),
        }
    }
}

/// Whether `started` is how the request that a builder in `state` builds, with an
/// empty body, starts; or what had gone wrong.
pub open spec fn starts_building(
    before: Senders,
    state: Result<HeadView, Error>,
    started: Result<(SendState, SendAction), Error>,
    after: Senders,
) -> bool {
    match state {
        Ok(head) => exists|request: Request|
            request.head@ == head && request.body@ == BodyView::Bytes(Seq::empty())
                && #[trigger] starts_sending(before, request, started, after),
        Err(error) => started == Err::<(SendState, SendAction), Error>(error) && after == before,
    }
}

impl Request {
    /// Starts to send the request over a client.
    pub fn send(self, client: &mut IrohH3Client) -> (started: Result<
        (SendState, SendAction),
        Error,
    >)
        requires
            old(client).wf(),
            has_ticket(old(client).senders()),
        ensures
            final(client).wf(),
            starts_sending(
                old(client).senders(),
                self,
                started,
                final(client).senders(),
            ),
            final(client).protocol() == old(client).protocol(),
    {
        client.send(self)
    }
}

impl RequestBuilder {
    /// Builds the request with an empty body and starts to send it over a client.
    pub fn send(self, client: &mut IrohH3Client) -> (started: Result<
        (SendState, SendAction),
        Error,
    >)
        requires
            old(client).wf(),
            has_ticket(old(client).senders()),
        ensures
            final(client).wf(),
            starts_building(
                old(client).senders(),
                self@,
                started,
                final(client).senders(),
            ),
            final(client).protocol() == old(client).protocol(),
    {
        match self.build() {
            Ok(request) => request.send(client),
            Err(error) => Err(error),
        }
    }
}

// ---------------------------------------------------------------------------
// Laws
// ---------------------------------------------------------------------------

/// The actions that send the frames of a body: frames of other kinds are skipped.
pub open spec fn sending_actions(frames: Seq<BodyFrame>) -> Seq<SendAction>
    decreases frames.len(),
{
    if frames.len() == 0 {
        Seq::empty()
    } else {
        let before = sending_actions(frames.drop_last());
        match frames.last() {
            BodyFrame::Data(data) => before.push(SendAction::SendData(data)),
            BodyFrame::Trailers(trailers) => before.push(SendAction::SendTrailers(trailers)),
            BodyFrame::Other => before,
        }
    }
}

/// The state that `state` leads to, and the actions other than reading on the way,
/// where `frames` are read from the body and everything that is sent arrives.
pub open spec fn run_body(
    senders: Senders,
    state: SendState,
    frames: Seq<BodyFrame>,
) -> (SendState, Seq<SendAction>)
    decreases frames.len(),
{
    if frames.len() == 0 {
        (state, Seq::empty())
    } else {
        let (before, sent) = run_body(senders, state, frames.drop_last());
        let (after, action) = next_step(
            senders,
            before,
            SendEvent::Frame(Some(Ok(frames.last()))),
        );
        if action is ReadFrame {
            (after, sent)
        } else {
            (next_step(senders, after, SendEvent::Done).0, sent.push(action))
        }
    }
}

/// A body is sent whole and in order: each frame of data or trailers goes out
/// once, and when the body ends, the request ends its side of the stream.
pub proof fn law_body_sent_in_order(
    senders: Senders,
    frames: Seq<BodyFrame>,
)
    ensures
        run_body(senders, SendState::ReadingBody, frames) == (
            SendState::ReadingBody,
            sending_actions(frames),
        ),
        next_step(senders, SendState::ReadingBody, SendEvent::Frame(None)) == (
            SendState::Finishing,
            SendAction::Finish,
        ),
    decreases frames.len(),
{
    if frames.len() > 0 {
        law_body_sent_in_order(senders, frames.drop_last());
    }
}

/// A failure of the stream ends a request, at whatever point it comes: the request
/// fails with that error, and the connections stay as they are.
pub proof fn law_stream_failure_ends(
    senders: Senders,
    state: SendState,
    error: StreamError,
)
    requires
        expects(state, SendEvent::Failed(error)),
    ensures
        next_step(senders, state, SendEvent::Failed(error)) == (
            SendState::Over,
            SendAction::Fail(Error::Stream(error)),
        ),
        next_senders(senders, state, SendEvent::Failed(error)) == senders,
{
}

/// A request is opened as it was made ready, over the connection that it waited
/// for, and only once that has been made.
pub proof fn law_opened_when_connected(
    senders: Senders,
    state: SendState,
    event: SendEvent,
)
    requires
        expects(state, event),
    ensures
        next_step(senders, state, event).1 is Open <==> state is Connecting
            && event is Connected,
        event is Connected ==> (state matches SendState::Connecting { peer, request, stage }
            && next_step(senders, state, event) == (
            SendState::Opening,
            SendAction::Open { ticket: stage.ticket_of(), request },
        )),
{
}

/// A request is answered only by the head that came for it, and once it is over
/// nothing more is expected.
pub proof fn law_answered_by_head(
    senders: Senders,
    state: SendState,
    event: SendEvent,
)
    requires
        expects(state, event),
    ensures
        ({
            let (after, action) = next_step(senders, state, event);
            &&& action matches SendAction::Respond(response) ==> event == SendEvent::Head(response)
            &&& after is Over <==> action is Respond || action is Fail
        }),
{
}

/// Every response is handed to the caller, whatever its status, its version and its
/// fields.
pub proof fn law_every_response_answers(senders: Senders, response: Response)
    ensures
        expects(SendState::Receiving, SendEvent::Head(response)),
        next_step(senders, SendState::Receiving, SendEvent::Head(response)) == (
            SendState::Over,
            SendAction::Respond(response),
        ),
        next_senders(senders, SendState::Receiving, SendEvent::Head(response)) == senders,
{
}

/// Once a stream is open the body is read; once a frame is sent the next is read;
/// once the side has ended the response is awaited. None of this depends on the
/// connections or changes them.
pub proof fn law_success_goes_on(senders: Senders)
    ensures
        next_step(senders, SendState::Opening, SendEvent::Done) == (
            SendState::ReadingBody,
            SendAction::ReadFrame,
        ),
        next_step(senders, SendState::SendingFrame, SendEvent::Done) == (
            SendState::ReadingBody,
            SendAction::ReadFrame,
        ),
        next_step(senders, SendState::Finishing, SendEvent::Done) == (
            SendState::Receiving,
            SendAction::ReceiveHead,
        ),
        next_senders(senders, SendState::Opening, SendEvent::Done) == senders,
        next_senders(senders, SendState::SendingFrame, SendEvent::Done) == senders,
        next_senders(senders, SendState::Finishing, SendEvent::Done) == senders,
{
}

/// What is read from a body is sent as it is, whatever it holds: data as data,
/// trailers as trailers. Other frames are passed over, the end of the body ends the
/// side, and a failure of the body is what the request fails with.
pub proof fn law_read_frame_is_sent(
    senders: Senders,
    data: Vec<u8>,
    trailers: HeaderMap<HeaderValue>,
    error: HttpError,
    read: Option<Result<BodyFrame, HttpError>>,
)
    ensures
        next_step(
            senders,
            SendState::ReadingBody,
            SendEvent::Frame(Some(Ok(BodyFrame::Data(data)))),
        ) == (SendState::SendingFrame, SendAction::SendData(data)),
        next_step(
            senders,
            SendState::ReadingBody,
            SendEvent::Frame(Some(Ok(BodyFrame::Trailers(trailers)))),
        ) == (SendState::SendingFrame, SendAction::SendTrailers(trailers)),
        next_step(
            senders,
            SendState::ReadingBody,
            SendEvent::Frame(Some(Ok(BodyFrame::Other))),
        ) == (SendState::ReadingBody, SendAction::ReadFrame),
        next_step(senders, SendState::ReadingBody, SendEvent::Frame(None)) == (
            SendState::Finishing,
            SendAction::Finish,
        ),
        next_step(senders, SendState::ReadingBody, SendEvent::Frame(Some(Err(error)))) == (
            SendState::Over,
            SendAction::Fail(Error::Http(error)),
        ),
        next_senders(senders, SendState::ReadingBody, SendEvent::Frame(read)) == senders,
{
}

/// A request whose own attempt to connect failed fails with the error of that
/// attempt, and the attempt is forgotten. One that waited for another's goes on
/// waiting, for the connection in the cache or for one that it makes itself, and is
/// still the same request to the same peer.
pub proof fn law_failed_connection(
    senders: Senders,
    peer: PeerId,
    request: Request,
    stage: SenderStage,
    error: Arc<Error>,
)
    ensures
        ({
            let state = SendState::Connecting { peer, request, stage };
            let event = SendEvent::NotConnected(error);
            let (after, action) = next_step(senders, state, event);
            let left = next_senders(senders, state, event);
            let next = if senders.cache.contains_key(peer@) {
                SenderStage::TryForeign(senders.cache[peer@])
            } else {
                SenderStage::CreateOwn(senders.next)
            };
            if stage is CreateOwn {
                &&& after is Over
                &&& action == SendAction::Fail(Error::Shared(error))
                &&& left.cache == senders.cache.remove(peer@)
                &&& left.next == senders.next
            } else {
                &&& after == SendState::Connecting { peer, request, stage: next }
                &&& action == SendAction::Await(next)
                &&& left.cache.contains_pair(peer@, next.ticket_of())
            }
        }),
{
}

/// A connection that is made is left to other requests.
pub proof fn law_made_connection_kept(
    senders: Senders,
    peer: PeerId,
    request: Request,
    stage: SenderStage,
)
    ensures
        next_senders(
            senders,
            SendState::Connecting { peer, request, stage },
            SendEvent::Connected,
        ) == senders,
{
}

/// Whatever can come of an action is taken: a connection may be made or not, a step
/// on the stream may succeed or fail, any frame may be read and any head may come.
pub proof fn law_outcomes_expected(
    peer: PeerId,
    request: Request,
    stage: SenderStage,
    cause: Arc<Error>,
    error: StreamError,
    read: Option<Result<BodyFrame, HttpError>>,
    response: Response,
)
    ensures
        expects(SendState::Connecting { peer, request, stage }, SendEvent::Connected),
        expects(SendState::Connecting { peer, request, stage }, SendEvent::NotConnected(cause)),
        expects(SendState::Opening, SendEvent::Done),
        expects(SendState::Opening, SendEvent::Failed(error)),
        expects(SendState::ReadingBody, SendEvent::Frame(read)),
        expects(SendState::SendingFrame, SendEvent::Done),
        expects(SendState::SendingFrame, SendEvent::Failed(error)),
        expects(SendState::Finishing, SendEvent::Done),
        expects(SendState::Finishing, SendEvent::Failed(error)),
        expects(SendState::Receiving, SendEvent::Head(response)),
        expects(SendState::Receiving, SendEvent::Failed(error)),
{
}

/// A request is sent to the peer that its target names and to no other: it starts
/// exactly where the authority encodes an endpoint id, waits for the connection to
/// that peer, and is as it was built but for its version. A target that names no
/// peer is the error, and nothing is connected.
pub proof fn law_request_goes_to_its_peer(
    before: Senders,
    request: Request,
    started: Result<(SendState, SendAction), Error>,
    after: Senders,
)
    requires
        starts_sending(before, request, started, after),
    ensures
        started is Ok <==> request.head@.uri.authority is Some && parsed_endpoint_id(
            request.head@.uri.authority->0,
        ) is Ok,
        request.head@.uri.authority is None ==> started == Err::<(SendState, SendAction), Error>(
            Error::MissingAuthority,
        ),
        started is Err ==> after == before,
        started is Err && request.head@.uri.authority is Some ==> started->Err_0 is BadPeerId,
        started is Ok ==> ({
            let id = parsed_endpoint_id(request.head@.uri.authority->0)->Ok_0;
            let ticket = if before.cache.contains_key(id) {
                before.cache[id]
            } else {
                before.next
            };
            &&& started->Ok_0.0 matches SendState::Connecting { peer, request: sent, stage }
            &&& peer@ == id
            &&& stage is CreateOwn <==> !before.cache.contains_key(id)
            &&& stage.ticket_of() == ticket
            &&& started->Ok_0.1 == SendAction::Await(stage)
            &&& sent.head@.version == Version::Http3
            &&& sent.head@.method == request.head@.method
            &&& sent.head@.uri == request.head@.uri
            &&& sent.head@.headers == request.head@.headers
            &&& sent.body == request.body
            &&& after.cache.contains_pair(id, ticket)
        }),
{
}

/// A builder that is sent sends the head that was built up with no bytes behind it;
/// what had gone wrong is the error, and nothing is connected.
pub proof fn law_builder_sends_empty_body(
    before: Senders,
    state: Result<HeadView, Error>,
    started: Result<(SendState, SendAction), Error>,
    after: Senders,
)
    requires
        starts_building(before, state, started, after),
    ensures
        state matches Err(error) ==> started == Err::<(SendState, SendAction), Error>(error)
            && after == before,
        state is Ok && started is Ok ==> ({
            let head = state->Ok_0;
            &&& started->Ok_0.0 matches SendState::Connecting { peer, request: sent, stage }
            &&& sent.head@ == (HeadView { version: Version::Http3, ..head })
            &&& sent.body@ == BodyView::Bytes(Seq::empty())
            &&& head.uri.authority is Some
            &&& parsed_endpoint_id(head.uri.authority->0) == Ok::<Seq<u8>, Seq<char>>(peer@)
        }),
        state is Ok && started is Err ==> state->Ok_0.uri.authority is None || parsed_endpoint_id(
            state->Ok_0.uri.authority->0,
        ) is Err,
{
    if let Ok(head) = state {
        let request = choose|request: Request|
            request.head@ == head && request.body@ == BodyView::Bytes(Seq::empty())
                && #[trigger] starts_sending(before, request, started, after);
        law_request_goes_to_its_peer(before, request, started, after);
    }
}

} // verus!
