//! The client: making requests, sharing connections, sending bodies.
//!
//! An [`IrohH3Client`] performs no I/O. Connections are known to it by tickets:
//! numbers by which whoever drives it finds a connection, or an attempt at one
//! that several requests wait for. The client decides which ticket a request uses
//! and when a new connection is made, and it gives no ticket out twice. How a request goes out over its connection
//! is in [`sending`].

use dashmap::DashMap;
use http::{Error as HttpError, HeaderMap, HeaderValue};
use vstd::prelude::*;

use crate::error::Error;
use crate::peer::{is_peer_of, peer_id, PeerId};
use crate::request::{initial_head, HeadView, Method, Request, RequestBuilder, RequestHead, Version};
use crate::uri::{parsed_uri, UriView};

pub mod sending;

verus! {

// ---------------------------------------------------------------------------
// The cached connections
// ---------------------------------------------------------------------------

/// What the cache of a client holds: for each peer, the ticket of its connection.
pub uninterp spec fn cache_entries(cache: DashMap<[u8; 32], u64>) -> Map<Seq<u8>, u64>;

/// The contents of a cache without connections.
pub open spec fn no_entries() -> Map<Seq<u8>, u64> {
    Map::empty()
}

/// Calls `DashMap::new`. Trusted: the map holds nothing.
#[verifier::external_body]
fn new_cache() -> (cache: DashMap<[u8; 32], u64>)
    ensures
        cache_entries(cache) == no_entries(),
{
    DashMap::new()
}

/// Calls `DashMap::get`. Trusted: it gives the value under the key, and none where
/// the key is absent.
#[verifier::external_body]
fn cached_ticket(cache: &DashMap<[u8; 32], u64>, peer: &[u8; 32]) -> (ticket: Option<u64>)
    ensures
        ticket is Some <==> cache_entries(*cache).contains_key(peer@),
        ticket matches Some(found) ==> found == cache_entries(*cache)[peer@],
{
    cache.get(peer).map(|ticket| *ticket)
}

/// Calls `DashMap::insert`. Trusted: the key gets the value in place of one that it
/// had, and nothing else changes.
#[verifier::external_body]
fn cache_ticket(cache: &mut DashMap<[u8; 32], u64>, peer: [u8; 32], ticket: u64)
    ensures
        cache_entries(*final(cache)) == cache_entries(*old(cache)).insert(peer@, ticket),
{
    cache.insert(peer, ticket);
}

/// Calls `DashMap::remove`. Trusted: the key goes with its value, where it is
/// there, and nothing else changes.
#[verifier::external_body]
fn forget_ticket(cache: &mut DashMap<[u8; 32], u64>, peer: &[u8; 32])
    ensures
        cache_entries(*final(cache)) == cache_entries(*old(cache)).remove(peer@),
{
    cache.remove(peer);
}

/// Why a request waits for a connection.
#[derive(Clone, Copy, Debug, PartialEq, Eq, Structural)]
pub enum SenderStage {
    /// It found the connection in the cache.
    Cached(u64),
    /// Another request is making the connection.
    TryForeign(u64),
    /// It makes the connection itself.
    CreateOwn(u64),
}

impl SenderStage {
    /// The ticket of the connection that the request waits for.
    pub open spec fn ticket_of(self) -> u64 {
        match self {
            SenderStage::Cached(ticket) => ticket,
            SenderStage::TryForeign(ticket) => ticket,
            SenderStage::CreateOwn(ticket) => ticket,
        }
    }

    /// The ticket of the connection that the request waits for.
    pub fn ticket(&self) -> (ticket: u64)
        ensures
            ticket == self.ticket_of(),
    {
        match self {
            SenderStage::Cached(ticket) => *ticket,
            SenderStage::TryForeign(ticket) => *ticket,
            SenderStage::CreateOwn(ticket) => *ticket,
        }
    }
}

/// What a request does about its connection.
#[derive(Clone, Copy, Debug, PartialEq, Eq, Structural)]
pub enum SenderStep {
    /// It waits for the ticket of the stage, which it first connects if the stage
    /// says so.
    Await(SenderStage),
    /// It uses the connection with this ticket.
    Ready(u64),
    /// It fails with what its own attempt to connect failed with.
    Failed,
}

/// The connections of a client: for each peer that has one, its ticket; and the
/// ticket that the next connection gets.
#[verifier::ext_equal]
pub struct Senders {
    pub cache: Map<Seq<u8>, u64>,
    pub next: u64,
}

/// The connections of a new client.
pub open spec fn no_senders() -> Senders {
    Senders { cache: no_entries(), next: 0 }
}

/// Whether no two peers have the same ticket, and every ticket in use was given
/// out.
pub open spec fn well_ticketed(senders: Senders) -> bool {
    &&& forall|peer: Seq<u8>|
        senders.cache.contains_key(peer) ==> #[trigger] senders.cache[peer] < senders.next
    &&& forall|left: Seq<u8>, right: Seq<u8>|
        #![trigger senders.cache[left], senders.cache[right]]
        senders.cache.contains_key(left) && senders.cache.contains_key(right)
            && senders.cache[left] == senders.cache[right] ==> left == right
}

/// Whether there is a ticket for one more connection: of the 2^64 numbers all but
/// the last are given out.
pub open spec fn has_ticket(senders: Senders) -> bool {
    senders.next < u64::MAX
}

/// How a request comes to a connection to a peer: by one that another request
/// makes or has made, else by one that it makes under the next ticket.
pub open spec fn claim(senders: Senders, peer: Seq<u8>) -> SenderStage {
    if senders.cache.contains_key(peer) {
        SenderStage::TryForeign(senders.cache[peer])
    } else {
        SenderStage::CreateOwn(senders.next)
    }
}

/// The connections after a claim.
pub open spec fn after_claim(senders: Senders, peer: Seq<u8>) -> Senders {
    if senders.cache.contains_key(peer) {
        senders
    } else {
        Senders {
            cache: senders.cache.insert(peer, senders.next),
            next: (senders.next + 1) as u64,
        }
    }
}

/// How a request starts to get a connection to a peer: by the cached one, else by
/// one that it makes under the next ticket.
pub open spec fn get_stage(senders: Senders, peer: Seq<u8>) -> SenderStage {
    if senders.cache.contains_key(peer) {
        SenderStage::Cached(senders.cache[peer])
    } else {
        SenderStage::CreateOwn(senders.next)
    }
}

/// What a request does when the connection that it waited for has been made or
/// has failed.
pub open spec fn settle(
    senders: Senders,
    peer: Seq<u8>,
    stage: SenderStage,
    connected: bool,
) -> SenderStep {
    if connected {
        SenderStep::Ready(stage.ticket_of())
    } else {
        match stage {
            SenderStage::CreateOwn(ticket) => SenderStep::Failed,
            _ => SenderStep::Await(claim(senders, peer)),
        }
    }
}

/// The connections after that.
pub open spec fn after_settle(
    senders: Senders,
    peer: Seq<u8>,
    stage: SenderStage,
    connected: bool,
) -> Senders {
    if connected {
        senders
    } else {
        match stage {
            SenderStage::CreateOwn(ticket) => without(senders, peer),
            _ => after_claim(senders, peer),
        }
    }
}

/// The connections without that to a peer.
pub open spec fn without(senders: Senders, peer: Seq<u8>) -> Senders {
    Senders { cache: senders.cache.remove(peer), next: senders.next }
}

// ---------------------------------------------------------------------------
// Sending a body
// ---------------------------------------------------------------------------

/// A frame of a body.
pub enum BodyFrame {
    Data(Vec<u8>),
    Trailers(HeaderMap<HeaderValue>),
    /// A frame of a kind that is not sent.
    Other,
}

/// What is sent for a frame.
pub enum SendStep {
    /// Send the data, then read the next frame.
    SendData(Vec<u8>),
    /// Send the trailers, then read the next frame.
    SendTrailers(HeaderMap<HeaderValue>),
    /// Read the next frame.
    Skip,
    /// The body has been sent.
    Finished,
}

/// What sending a body does with what was read from it.
pub open spec fn send_step(
    read: Option<Result<BodyFrame, HttpError>>,
) -> Result<SendStep, Error> {
    match read {
        None => Ok(SendStep::Finished),
        Some(Err(error)) => Err(Error::Http(error)),
        Some(Ok(BodyFrame::Data(data))) => Ok(SendStep::SendData(data)),
        Some(Ok(BodyFrame::Trailers(trailers))) => Ok(SendStep::SendTrailers(trailers)),
        Some(Ok(BodyFrame::Other)) => Ok(SendStep::Skip),
    }
}

// ---------------------------------------------------------------------------
// The client
// ---------------------------------------------------------------------------

/// Whether `builder` is where building a request starts.
pub open spec fn starts(builder: RequestBuilder, method: Seq<char>, uri: Seq<char>) -> bool {
    match parsed_uri(uri) {
        Ok((text, authority)) => builder@ == Ok::<HeadView, Error>(
            initial_head(method, UriView { text, authority }),
        ),
        Err(error) => builder@ == Err::<HeadView, Error>(Error::Http(error)),
    }
}

/// `request` as it goes out: as a request of HTTP/3.
pub open spec fn as_http3(request: Request) -> Request {
    Request {
        head: RequestHead { version: Version::Http3, ..request.head },
        body: request.body,
    }
}

/// A client for HTTP/3 between peers.
pub struct IrohH3Client {
    alpn: Vec<u8>,
    sender_cache: DashMap<[u8; 32], u64>,
    next_ticket: u64,
}

impl IrohH3Client {
    /// The protocol that the client negotiates.
    pub closed spec fn protocol(&self) -> Seq<u8> {
        self.alpn@
    }

    /// The connections of the client.
    pub closed spec fn senders(&self) -> Senders {
        Senders { cache: cache_entries(self.sender_cache), next: self.next_ticket }
    }

    /// Whether each peer has a ticket of its own.
    pub open spec fn wf(&self) -> bool {
        well_ticketed(self.senders())
    }

    /// A client that negotiates the given protocol and has no connections.
    pub fn new(alpn: Vec<u8>) -> (client: Self)
        ensures
            client.wf(),
            client.protocol() == alpn@,
            client.senders() == no_senders(),
    {
        IrohH3Client { alpn, sender_cache: new_cache(), next_ticket: 0 }
    }

    /// The protocol that the client negotiates.
    pub fn alpn(&self) -> (alpn: &[u8])
        ensures
            alpn@ == self.protocol(),
    {
        self.alpn.as_slice()
    }

    /// Starts building a request.
    pub fn request(&self, method: Method, uri: &str) -> (builder: RequestBuilder)
        ensures
            starts(builder, method@, uri@),
    {
        RequestBuilder::new(method, uri)
    }

    /// Starts building a `HEAD` request.
    pub fn head(&self, uri: &str) -> (builder: RequestBuilder)
        ensures
            starts(builder, "HEAD"@, uri@),
    {
        self.request(Method::Head, uri)
    }

    /// Starts building a `GET` request.
    pub fn get(&self, uri: &str) -> (builder: RequestBuilder)
        ensures
            starts(builder, "GET"@, uri@),
    {
        self.request(Method::Get, uri)
    }

    /// Starts building a `POST` request.
    pub fn post(&self, uri: &str) -> (builder: RequestBuilder)
        ensures
            starts(builder, "POST"@, uri@),
    {
        self.request(Method::Post, uri)
    }

    /// Starts building a `PUT` request.
    pub fn put(&self, uri: &str) -> (builder: RequestBuilder)
        ensures
            starts(builder, "PUT"@, uri@),
    {
        self.request(Method::Put, uri)
    }

    /// Starts building a `PATCH` request.
    pub fn patch(&self, uri: &str) -> (builder: RequestBuilder)
        ensures
            starts(builder, "PATCH"@, uri@),
    {
        self.request(Method::Patch, uri)
    }

    /// Starts building a `DELETE` request.
    pub fn delete(&self, uri: &str) -> (builder: RequestBuilder)
        ensures
            starts(builder, "DELETE"@, uri@),
    {
        self.request(Method::Delete, uri)
    }

    /// Says whether there is a ticket for one more connection.
    pub fn can_connect(&self) -> (left: bool)
        ensures
            left == has_ticket(self.senders()),
    {
        self.next_ticket < u64::MAX
    }

    /// The ticket of a connection to a peer that is in the cache.
    pub fn try_get_cached_sender(&self, peer: &PeerId) -> (ticket: Option<u64>)
        ensures
            ticket is Some <==> self.senders().cache.contains_key(peer@),
            ticket matches Some(found) ==> found == self.senders().cache[peer@],
    {
        cached_ticket(&self.sender_cache, &peer.bytes)
    }

    /// Joins the connection that is being made to a peer, or takes it on under a new
    /// ticket.
    pub fn coordinate_connection_setup(&mut self, peer: &PeerId) -> (stage: SenderStage)
        requires
            old(self).wf(),
            old(self).senders().cache.contains_key(peer@) || has_ticket(old(self).senders()),
        ensures
            final(self).wf(),
            stage == claim(old(self).senders(), peer@),
            final(self).senders() == after_claim(old(self).senders(), peer@),
            final(self).protocol() == old(self).protocol(),
    {
        match cached_ticket(&self.sender_cache, &peer.bytes) {
            Some(ticket) => SenderStage::TryForeign(ticket),
            None => {
                let ticket = self.next_ticket;
                self.next_ticket = ticket + 1;
                cache_ticket(&mut self.sender_cache, peer.bytes, ticket);
                proof {
                    lemma_claim_well_ticketed(old(self).senders(), peer@);
                }
                SenderStage::CreateOwn(ticket)
            },
        }
    }

    /// Starts to get a connection to a peer: the cached one, else one that is made
    /// under a new ticket.
    pub fn get_sender(&mut self, peer: &PeerId) -> (stage: SenderStage)
        requires
            old(self).wf(),
            old(self).senders().cache.contains_key(peer@) || has_ticket(old(self).senders()),
        ensures
            final(self).wf(),
            stage == get_stage(old(self).senders(), peer@),
            final(self).senders() == after_claim(old(self).senders(), peer@),
            final(self).protocol() == old(self).protocol(),
    {
        match self.try_get_cached_sender(peer) {
            Some(ticket) => SenderStage::Cached(ticket),
            None => self.coordinate_connection_setup(peer),
        }
    }

    /// Goes on when the connection that a request waited for has been made or has
    /// failed.
    pub fn sender_settled(
        &mut self,
        peer: &PeerId,
        stage: SenderStage,
        connected: bool,
    ) -> (step: SenderStep)
        requires
            old(self).wf(),
            connected || stage is CreateOwn || has_ticket(old(self).senders()),
        ensures
            final(self).wf(),
            step == settle(old(self).senders(), peer@, stage, connected),
            final(self).senders() == after_settle(old(self).senders(), peer@, stage, connected),
            final(self).protocol() == old(self).protocol(),
    {
        if connected {
            return SenderStep::Ready(stage.ticket());
        }
        match stage {
            SenderStage::CreateOwn(_) => {
                self.connection_closed(peer);
                SenderStep::Failed
            },
            _ => SenderStep::Await(self.coordinate_connection_setup(peer)),
        }
    }

    /// Forgets the connection to a peer, which has closed.
    pub fn connection_closed(&mut self, peer: &PeerId)
        requires
            old(self).wf(),
        ensures
            final(self).wf(),
            final(self).senders() == without(old(self).senders(), peer@),
            final(self).protocol() == old(self).protocol(),
    {
        forget_ticket(&mut self.sender_cache, &peer.bytes);
        proof {
            lemma_without_well_ticketed(old(self).senders(), peer@);
        }
    }

    /// Makes a request ready for the wire: sets its version, and finds the peer
    /// that it goes to.
    pub fn prepare_send(&self, request: Request) -> (ready: Result<(PeerId, Request), Error>)
        ensures
            match ready {
                Ok((peer, sent)) => {
                    &&& is_peer_of(request.head@.uri.authority, Ok(peer))
                    &&& sent == as_http3(request)
                },
                Err(error) => is_peer_of(request.head@.uri.authority, Err(error)),
            },
    {
        let mut request = request;
        request.head.version = Version::Http3;
        match peer_id(&request.head.uri) {
            Ok(peer) => Ok((peer, request)),
            Err(error) => Err(error),
        }
    }

    /// Says what to send for what was read from a body.
    pub fn send_body(read: Option<Result<BodyFrame, HttpError>>) -> (step: Result<SendStep, Error>)
        ensures
            step == send_step(read),
    {
        match read {
            None => Ok(SendStep::Finished),
            Some(Err(error)) => Err(Error::Http(error)),
            Some(Ok(BodyFrame::Data(data))) => Ok(SendStep::SendData(data)),
            Some(Ok(BodyFrame::Trailers(trailers))) => Ok(SendStep::SendTrailers(trailers)),
            Some(Ok(BodyFrame::Other)) => Ok(SendStep::Skip),
        }
    }
}

// ---------------------------------------------------------------------------
// Laws
// ---------------------------------------------------------------------------

/// A claim keeps the tickets of peers apart.
proof fn lemma_claim_well_ticketed(senders: Senders, peer: Seq<u8>)
    requires
        well_ticketed(senders),
        has_ticket(senders),
    ensures
        well_ticketed(after_claim(senders, peer)),
{
    let after = after_claim(senders, peer);
    assert forall|left: Seq<u8>| after.cache.contains_key(left) implies #[trigger] after.cache[left]
        < after.next by {
        if senders.cache.contains_key(left) {
            assert(senders.cache[left] < senders.next);
        }
    }
    assert forall|left: Seq<u8>, right: Seq<u8>|
        #![trigger after.cache[left], after.cache[right]]
        after.cache.contains_key(left) && after.cache.contains_key(right) && after.cache[left]
            == after.cache[right] implies left == right by {
        if senders.cache.contains_key(left) {
            assert(senders.cache[left] < senders.next);
        }
        if senders.cache.contains_key(right) {
            assert(senders.cache[right] < senders.next);
        }
    }
}

/// So does the end of a connection.
proof fn lemma_without_well_ticketed(senders: Senders, peer: Seq<u8>)
    requires
        well_ticketed(senders),
    ensures
        well_ticketed(without(senders, peer)),
{
    let after = without(senders, peer);
    assert forall|left: Seq<u8>| after.cache.contains_key(left) implies #[trigger] after.cache[left]
        < after.next by {
        assert(senders.cache[left] < senders.next);
    }
    assert forall|left: Seq<u8>, right: Seq<u8>|
        #![trigger after.cache[left], after.cache[right]]
        after.cache.contains_key(left) && after.cache.contains_key(right) && after.cache[left]
            == after.cache[right] implies left == right by {
        assert(senders.cache[left] == senders.cache[right]);
    }
}

/// Something that happens to the connections.
pub enum CacheOp {
    /// A request starts to get a connection, or joins one after a failure.
    Claim { peer: Seq<u8> },
    /// The connection that a request waited for has been made or has failed.
    Settle { peer: Seq<u8>, stage: SenderStage, connected: bool },
    /// A connection has closed.
    Close { peer: Seq<u8> },
}

/// The connections after one thing.
pub open spec fn after_op(senders: Senders, op: CacheOp) -> Senders {
    match op {
        CacheOp::Claim { peer } => after_claim(senders, peer),
        CacheOp::Settle { peer, stage, connected } => after_settle(senders, peer, stage, connected),
        CacheOp::Close { peer } => without(senders, peer),
    }
}

/// The connections after some things in turn.
pub open spec fn after_ops(senders: Senders, ops: Seq<CacheOp>) -> Senders
    decreases ops.len(),
{
    if ops.len() == 0 {
        senders
    } else {
        after_op(after_ops(senders, ops.drop_last()), ops.last())
    }
}

/// Whether there are tickets for so many more connections.
pub open spec fn has_tickets(senders: Senders, count: nat) -> bool {
    senders.next + count <= u64::MAX
}

/// Whether `op` ends the connection to a peer: it closes, or the request that was
/// making it fails to.
pub open spec fn ends(op: CacheOp, peer: Seq<u8>) -> bool {
    match op {
        CacheOp::Close { peer: closed } => closed == peer,
        CacheOp::Settle { peer: settled, stage, connected } => settled == peer && !connected
            && stage is CreateOwn,
        _ => false,
    }
}

/// Each thing that happens uses up at most one ticket.
proof fn lemma_next_ticket(senders: Senders, ops: Seq<CacheOp>)
    requires
        has_tickets(senders, ops.len()),
    ensures
        senders.next <= after_ops(senders, ops).next <= senders.next + ops.len(),
    decreases ops.len(),
{
    if ops.len() > 0 {
        lemma_next_ticket(senders, ops.drop_last());
    }
}

/// No two peers ever have the same ticket, whatever happens.
pub proof fn law_tickets_apart(senders: Senders, ops: Seq<CacheOp>)
    requires
        well_ticketed(senders),
        has_tickets(senders, ops.len()),
    ensures
        well_ticketed(after_ops(senders, ops)),
    decreases ops.len(),
{
    if ops.len() > 0 {
        let init = ops.drop_last();
        law_tickets_apart(senders, init);
        lemma_next_ticket(senders, init);
        let before = after_ops(senders, init);
        match ops.last() {
            CacheOp::Claim { peer } => lemma_claim_well_ticketed(before, peer),
            CacheOp::Settle { peer, stage, connected } => {
                lemma_claim_well_ticketed(before, peer);
                lemma_without_well_ticketed(before, peer);
            },
            CacheOp::Close { peer } => lemma_without_well_ticketed(before, peer),
        }
    }
}

/// Peers do not share connections: once a request for a peer has been given a
/// ticket, no request for another peer is ever given it, whatever happens, even
/// after the connection has ended.
pub proof fn law_peers_do_not_share(
    senders: Senders,
    peer: Seq<u8>,
    ops: Seq<CacheOp>,
    other: Seq<u8>,
)
    requires
        well_ticketed(senders),
        has_tickets(senders, ops.len() + 1),
        peer != other,
    ensures
        ({
            let ticket = get_stage(senders, peer).ticket_of();
            let after = after_ops(after_claim(senders, peer), ops);
            &&& get_stage(after, other).ticket_of() != ticket
            &&& claim(after, other).ticket_of() != ticket
        }),
{
    let start = after_claim(senders, peer);
    let ticket = get_stage(senders, peer).ticket_of();
    lemma_claim_well_ticketed(senders, peer);
    assert(start.cache[peer] == ticket);
    assert forall|third: Seq<u8>| third != peer && start.cache.contains_key(third) implies (
    #[trigger] start.cache[third]) != ticket by {}
    lemma_ticket_kept(start, peer, ticket, ops);
}

/// A ticket that was given out for a peer stays with that peer.
proof fn lemma_ticket_kept(senders: Senders, peer: Seq<u8>, ticket: u64, ops: Seq<CacheOp>)
    requires
        ticket < senders.next,
        has_tickets(senders, ops.len()),
        forall|third: Seq<u8>|
            third != peer && senders.cache.contains_key(third) ==> (#[trigger] senders.cache[third])
                != ticket,
    ensures
        ({
            let after = after_ops(senders, ops);
            &&& ticket < after.next
            &&& forall|third: Seq<u8>|
                third != peer && after.cache.contains_key(third) ==> (#[trigger] after.cache[third])
                    != ticket
        }),
    decreases ops.len(),
{
    if ops.len() > 0 {
        let init = ops.drop_last();
        lemma_ticket_kept(senders, peer, ticket, init);
        lemma_next_ticket(senders, init);
        let before = after_ops(senders, init);
        let after = after_ops(senders, ops);
        assert forall|third: Seq<u8>| third != peer && after.cache.contains_key(third) implies (
        #[trigger] after.cache[third]) != ticket by {
            if before.cache.contains_key(third) {
                assert(before.cache[third] != ticket);
            }
        }
    }
}

/// A connection stays in the cache until it ends, whatever else happens.
pub proof fn law_connection_stays_cached(
    senders: Senders,
    ops: Seq<CacheOp>,
    peer: Seq<u8>,
    ticket: u64,
)
    requires
        senders.cache.contains_pair(peer, ticket),
        forall|i: int| 0 <= i < ops.len() ==> !ends(#[trigger] ops[i], peer),
    ensures
        after_ops(senders, ops).cache.contains_pair(peer, ticket),
    decreases ops.len(),
{
    if ops.len() > 0 {
        let init = ops.drop_last();
        assert forall|i: int| 0 <= i < init.len() implies !ends(#[trigger] init[i], peer) by {
            assert(init[i] == ops[i]);
        }
        law_connection_stays_cached(senders, init, peer, ticket);
        assert(!ends(ops[ops.len() - 1], peer));
    }
}

/// Connections are reused: from when a request has started to get a connection to
/// a peer until that connection ends, each further request for the peer gets the
/// same one, and none is made.
pub proof fn law_same_connection_until_it_ends(
    senders: Senders,
    peer: Seq<u8>,
    ops: Seq<CacheOp>,
)
    requires
        forall|i: int| 0 <= i < ops.len() ==> !ends(#[trigger] ops[i], peer),
    ensures
        ({
            let ticket = get_stage(senders, peer).ticket_of();
            let after = after_ops(after_claim(senders, peer), ops);
            &&& get_stage(after, peer) == SenderStage::Cached(ticket)
            &&& after_claim(after, peer) == after
        }),
{
    law_connection_stays_cached(
        after_claim(senders, peer),
        ops,
        peer,
        get_stage(senders, peer).ticket_of(),
    );
}

/// Only one connection to a peer is set up at a time: from when a request has
/// taken it on until it ends, every other request for the peer is told to wait
/// for that one.
pub proof fn law_one_setup_per_peer(
    senders: Senders,
    peer: Seq<u8>,
    ticket: u64,
    ops: Seq<CacheOp>,
)
    requires
        claim(senders, peer) == SenderStage::CreateOwn(ticket),
        forall|i: int| 0 <= i < ops.len() ==> !ends(#[trigger] ops[i], peer),
    ensures
        claim(after_ops(after_claim(senders, peer), ops), peer) == SenderStage::TryForeign(ticket),
{
    law_connection_stays_cached(after_claim(senders, peer), ops, peer, ticket);
}

/// A failed setup is cleaned up: the request that made it fails, and the next one
/// sets up a connection of its own.
pub proof fn law_failed_setup_allows_retry(senders: Senders, peer: Seq<u8>, ticket: u64)
    ensures
        ({
            let after = after_settle(senders, peer, SenderStage::CreateOwn(ticket), false);
            &&& settle(senders, peer, SenderStage::CreateOwn(ticket), false) == SenderStep::Failed
            &&& claim(after, peer) == SenderStage::CreateOwn(senders.next)
        }),
{
}

/// A request that waited for a connection that was made uses it, whoever made it,
/// and leaves it in the cache for the next.
pub proof fn law_connection_reused(senders: Senders, peer: Seq<u8>, stage: SenderStage)
    ensures
        settle(senders, peer, stage, true) == SenderStep::Ready(stage.ticket_of()),
        after_settle(senders, peer, stage, true) == senders,
{
}

/// The peer that something happens to.
pub open spec fn peer_of(op: CacheOp) -> Seq<u8> {
    match op {
        CacheOp::Claim { peer } => peer,
        CacheOp::Settle { peer, stage, connected } => peer,
        CacheOp::Close { peer } => peer,
    }
}

/// What happens to one peer's connection does not touch another's.
pub proof fn law_peers_independent(senders: Senders, op: CacheOp, other: Seq<u8>)
    requires
        peer_of(op) != other,
    ensures
        after_op(senders, op).cache.contains_key(other) <==> senders.cache.contains_key(other),
        senders.cache.contains_key(other) ==> after_op(senders, op).cache[other]
            == senders.cache[other],
{
}

/// A request for a peer without a connection makes one, under a ticket that no
/// peer has, and finds nobody to wait for.
pub proof fn law_first_request_connects(senders: Senders, peer: Seq<u8>)
    requires
        !senders.cache.contains_key(peer),
    ensures
        get_stage(senders, peer) == SenderStage::CreateOwn(senders.next),
        claim(senders, peer) == SenderStage::CreateOwn(senders.next),
        after_claim(senders, peer).cache.contains_pair(peer, senders.next),
        has_ticket(senders) ==> after_claim(senders, peer).next == senders.next + 1,
{
}

/// A request for a peer with a connection joins it and changes nothing.
pub proof fn law_cached_connection_joined(senders: Senders, peer: Seq<u8>)
    requires
        senders.cache.contains_key(peer),
    ensures
        get_stage(senders, peer) == SenderStage::Cached(senders.cache[peer]),
        claim(senders, peer) == SenderStage::TryForeign(senders.cache[peer]),
        after_claim(senders, peer) == senders,
{
}

/// A request fails for want of a connection only where its own attempt failed. One
/// that waited for another's attempt tries again: it joins what is in the cache by
/// then, or makes a connection itself.
pub proof fn law_only_own_failure_fails(
    senders: Senders,
    peer: Seq<u8>,
    stage: SenderStage,
    connected: bool,
)
    ensures
        settle(senders, peer, stage, connected) is Failed <==> !connected && stage is CreateOwn,
        settle(senders, peer, stage, connected) is Ready <==> connected,
        !connected && !(stage is CreateOwn) && senders.cache.contains_key(peer) ==> settle(
            senders,
            peer,
            stage,
            connected,
        ) == SenderStep::Await(SenderStage::TryForeign(senders.cache[peer])) && after_settle(
            senders,
            peer,
            stage,
            connected,
        ) == senders,
        !connected && !(stage is CreateOwn) && !senders.cache.contains_key(peer) ==> settle(
            senders,
            peer,
            stage,
            connected,
        ) == SenderStep::Await(SenderStage::CreateOwn(senders.next)) && after_settle(
            senders,
            peer,
            stage,
            connected,
        ).cache.contains_pair(peer, senders.next),
{
}

/// A connection that has closed is forgotten: the next request makes a new one,
/// under a ticket that was not given out before.
pub proof fn law_closed_connection_forgotten(senders: Senders, peer: Seq<u8>)
    ensures
        !without(senders, peer).cache.contains_key(peer),
        without(senders, peer).next == senders.next,
        get_stage(without(senders, peer), peer) == SenderStage::CreateOwn(senders.next),
{
}

/// The stage of a request says which connection it waits for.
pub proof fn law_stage_holds_ticket(ticket: u64)
    ensures
        SenderStage::Cached(ticket).ticket_of() == ticket,
        SenderStage::TryForeign(ticket).ticket_of() == ticket,
        SenderStage::CreateOwn(ticket).ticket_of() == ticket,
{
}

/// A frame of data is sent as it is, so are trailers; other frames are passed over;
/// the end of the body ends the sending, and a failure of the body is its error.
pub proof fn law_frames_sent_as_they_are(
    data: Vec<u8>,
    trailers: HeaderMap<HeaderValue>,
    error: HttpError,
)
    ensures
        send_step(Some(Ok(BodyFrame::Data(data)))) == Ok::<SendStep, Error>(
            SendStep::SendData(data),
        ),
        send_step(Some(Ok(BodyFrame::Trailers(trailers)))) == Ok::<SendStep, Error>(
            SendStep::SendTrailers(trailers),
        ),
        send_step(Some(Ok(BodyFrame::Other))) == Ok::<SendStep, Error>(SendStep::Skip),
        send_step(None) == Ok::<SendStep, Error>(SendStep::Finished),
        send_step(Some(Err(error))) == Err::<SendStep, Error>(Error::Http(error)),
{
}

/// Building a request starts from the given method and from the target that the
/// given text is read as, without fields; a text that is no target is an error that
/// stays in the builder.
pub proof fn law_request_starts_from_target(
    builder: RequestBuilder,
    method: Seq<char>,
    uri: Seq<char>,
)
    requires
        starts(builder, method, uri),
    ensures
        builder@ is Ok <==> parsed_uri(uri) is Ok,
        builder@ is Ok ==> {
            let head = builder@->Ok_0;
            &&& head.method == method
            &&& parsed_uri(uri) == Ok::<(Seq<char>, Option<Seq<char>>), HttpError>(
                (head.uri.text, head.uri.authority),
            )
            &&& head.headers == Map::<Seq<char>, Seq<Seq<u8>>>::empty()
        },
        parsed_uri(uri) is Err ==> builder@ == Err::<HeadView, Error>(
            Error::Http(parsed_uri(uri)->Err_0),
        ),
{
}

/// A request goes out as HTTP/3 and else as it is: with its method, its target, its
/// fields and its body.
pub proof fn law_sent_as_built(request: Request)
    ensures
        as_http3(request).head@.version == Version::Http3,
        as_http3(request).head@.method == request.head@.method,
        as_http3(request).head@.uri == request.head@.uri,
        as_http3(request).head@.headers == request.head@.headers,
        as_http3(request).body == request.body,
{
}

/// A new client has no connections and every ticket to give.
pub proof fn law_new_client_has_no_connection(peer: Seq<u8>)
    ensures
        !no_senders().cache.contains_key(peer),
        no_senders().next == 0,
        well_ticketed(no_senders()),
{
}

/// There is a ticket as long as not all but the last number have been given out.
pub proof fn law_tickets_run_out_last(senders: Senders)
    ensures
        has_ticket(senders) <==> senders.next < 0xffff_ffff_ffff_ffff,
{
}

/// Two peers that have connections have different ones, and neither has one that is
/// yet to be given out.
pub proof fn law_connected_peers_differ(senders: Senders, left: Seq<u8>, right: Seq<u8>)
    requires
        well_ticketed(senders),
        senders.cache.contains_key(left),
        senders.cache.contains_key(right),
        left != right,
    ensures
        senders.cache[left] != senders.cache[right],
        senders.cache[left] < senders.next,
{
}

} // verus!
