//! Requests and how they are built.
//!
//! A [`RequestBuilder`] collects header fields and ends in a [`Request`]. The
//! first thing that goes wrong stays: later steps change nothing, and building
//! reports it. Bodies of text, bytes or JSON set a fitting `Content-Type`, but
//! never replace one that is there.

use http::{HeaderMap, HeaderValue};
use serde_json::Error as JsonError;
use vstd::prelude::*;
use vstd::utf8::encode_utf8;

use crate::error::Error;
use crate::headers::{
    append_failure, append_header, copy_headers, first_value, header_entries, header_key, lemma_known_names,
    new_headers, no_headers, roomy, valid_header_name, valid_header_value, values_of, CONTENT_TYPE,
};
use crate::uri::{parsed_uri, Uri, UriView};

verus! {

/// The media type of a text body.
pub const MIME_TEXT: &'static str = "text/plain; charset=utf-8";

/// The media type of a body of bytes.
pub const MIME_BIN: &'static str = "application/octet-stream";

/// The media type of a JSON body.
pub const MIME_JSON: &'static str = "application/json";

/// A request method.
#[derive(Debug)]
pub enum Method {
    Head,
    Get,
    Post,
    Put,
    Patch,
    Delete,
    /// Any other method, by its name.
    Other(String),
}

impl Method {
    /// The name of the method.
    pub open spec fn view(&self) -> Seq<char> {
        match self {
            Method::Head => "HEAD"@,
            Method::Get => "GET"@,
            Method::Post => "POST"@,
            Method::Put => "PUT"@,
            Method::Patch => "PATCH"@,
            Method::Delete => "DELETE"@,
            Method::Other(name) => name@,
        }
    }

    /// The name of the method.
    pub fn as_str(&self) -> (name: &str)
        ensures
            name@ == self@,
    {
        match self {
            Method::Head => "HEAD",
            Method::Get => "GET",
            Method::Post => "POST",
            Method::Put => "PUT",
            Method::Patch => "PATCH",
            Method::Delete => "DELETE",
            Method::Other(name) => name.as_str(),
        }
    }
}

impl Clone for Method {
    /// The same method again.
    fn clone(&self) -> (copy: Self)
        ensures
            copy@ == self@,
    {
        match self {
            Method::Head => Method::Head,
            Method::Get => Method::Get,
            Method::Post => Method::Post,
            Method::Put => Method::Put,
            Method::Patch => Method::Patch,
            Method::Delete => Method::Delete,
            Method::Other(name) => Method::Other(name.clone()),
        }
    }
}

/// A version of HTTP.
#[derive(Clone, Copy, Debug, PartialEq, Eq, Structural)]
pub enum Version {
    Http09,
    Http10,
    Http11,
    Http2,
    Http3,
}

/// The body of a request.
#[derive(Debug)]
pub enum Body {
    /// No bytes.
    Empty,
    /// Bytes that are known in full, so that they can be sent again.
    Bytes(Vec<u8>),
    /// Bytes that are read while they are sent, once. Whoever sends the request
    /// holds their source.
    Streaming,
}

/// What a body is.
pub enum BodyView {
    Bytes(Seq<u8>),
    Streaming,
}

impl Body {
    /// What the body is: a body without bytes is one of no bytes.
    pub open spec fn view(&self) -> BodyView {
        match self {
            Body::Empty => BodyView::Bytes(Seq::empty()),
            Body::Bytes(bytes) => BodyView::Bytes(bytes@),
            Body::Streaming => BodyView::Streaming,
        }
    }

    /// The body without bytes.
    pub fn empty() -> (body: Self)
        ensures
            body is Empty,
    {
        Body::Empty
    }

    /// The body of the given bytes.
    pub fn bytes(bytes: Vec<u8>) -> (body: Self)
        ensures
            body == Body::Bytes(bytes),
    {
        Body::Bytes(bytes)
    }

    /// A second copy of the body, which a streaming body does not have.
    pub fn try_clone(&self) -> (copy: Option<Self>)
        ensures
            copy is None <==> self is Streaming,
            copy matches Some(body) ==> body@ == self@,
    {
        match self {
            Body::Empty => Some(Body::Empty),
            Body::Bytes(bytes) => {
                let mut copy: Vec<u8> = Vec::new();
                copy.extend_from_slice(bytes.as_slice());
                assert(copy@ =~= bytes@);
                Some(Body::Bytes(copy))
            },
            Body::Streaming => None,
        }
    }
}

/// The head of a request as values.
#[verifier::ext_equal]
pub struct HeadView {
    pub method: Seq<char>,
    pub uri: UriView,
    pub version: Version,
    pub headers: Map<Seq<char>, Seq<Seq<u8>>>,
}

/// The head of a request.
#[derive(Debug)]
pub struct RequestHead {
    pub method: Method,
    pub uri: Uri,
    pub version: Version,
    pub headers: HeaderMap<HeaderValue>,
}

impl RequestHead {
    /// The head as values.
    pub open spec fn view(&self) -> HeadView {
        HeadView {
            method: self.method@,
            uri: self.uri@,
            version: self.version,
            headers: header_entries(self.headers),
        }
    }
}

impl Clone for RequestHead {
    /// The same head again.
    fn clone(&self) -> (copy: Self)
        ensures
            copy@ == self@,
    {
        RequestHead {
            method: self.method.clone(),
            uri: self.uri.clone(),
            version: self.version,
            headers: copy_headers(&self.headers),
        }
    }
}

/// A request that is ready to be sent.
#[must_use]
#[derive(Debug)]
pub struct Request {
    pub head: RequestHead,
    pub body: Body,
}

/// The head that a builder starts from.
pub open spec fn initial_head(method: Seq<char>, uri: UriView) -> HeadView {
    HeadView { method, uri, version: Version::Http11, headers: no_headers() }
}

/// `head` with one more value of the field `name`.
pub open spec fn with_header(head: HeadView, name: Seq<char>, value: Seq<u8>) -> HeadView {
    HeadView {
        headers: head.headers.insert(
            header_key(name),
            values_of(head.headers, header_key(name)).push(value),
        ),
        ..head
    }
}

/// Whether `after` is the outcome of adding a field to `before`: nothing changes
/// where something had gone wrong; the field is added or the addition fails; it
/// fails where the name or the value is not valid, and succeeds where both are
/// and the head is roomy.
pub open spec fn adds_header(
    before: Result<HeadView, Error>,
    name: Seq<char>,
    value: Seq<u8>,
    after: Result<HeadView, Error>,
) -> bool {
    match before {
        Err(error) => after == before,
        Ok(head) => {
            ||| after == Err::<HeadView, Error>(Error::Http(append_failure(name, value))) && !(
            valid_header_name(name) && valid_header_value(value) && roomy(head.headers))
            ||| after == Ok::<HeadView, Error>(with_header(head, name, value)) && valid_header_name(
                name,
            ) && valid_header_value(value)
        },
    }
}

/// Whether `after` is the outcome of making sure that `before` has a
/// `Content-Type`: one that is there stays as it is, else `value` is added.
pub open spec fn ensures_content_type(
    before: Result<HeadView, Error>,
    value: Seq<u8>,
    after: Result<HeadView, Error>,
) -> bool {
    if before matches Ok(head) && head.headers.contains_key(CONTENT_TYPE@) {
        after == before
    } else {
        adds_header(before, CONTENT_TYPE@, value, after)
    }
}

/// Whether `built` is the request with the head of a builder and the given body,
/// or what had gone wrong.
pub open spec fn is_built(
    built: Result<Request, Error>,
    state: Result<HeadView, Error>,
    body: BodyView,
) -> bool {
    match state {
        Ok(head) => built matches Ok(request) && request.head@ == head && request.body@ == body,
        Err(error) => built == Err::<Request, Error>(error),
    }
}

/// Whether `built` is the request with the head of a builder and a body of the
/// given bytes, where the head gets the type `mime` unless it has one; or what had
/// gone wrong; or the failure to add the type to a head that is not roomy.
pub open spec fn is_built_as(
    built: Result<Request, Error>,
    state: Result<HeadView, Error>,
    mime: Seq<char>,
    bytes: Seq<u8>,
) -> bool {
    match state {
        Ok(head) => if head.headers.contains_key(CONTENT_TYPE@) {
            is_built(built, state, BodyView::Bytes(bytes))
        } else {
            ||| is_built(
                built,
                Ok(with_header(head, CONTENT_TYPE@, encode_utf8(mime))),
                BodyView::Bytes(bytes),
            )
            ||| !roomy(head.headers) && built == Err::<Request, Error>(
                Error::Http(append_failure(CONTENT_TYPE@, encode_utf8(mime))),
            )
        },
        Err(error) => built == Err::<Request, Error>(error),
    }
}

/// A builder of requests.
#[must_use]
#[derive(Debug)]
pub struct RequestBuilder {
    inner: Result<RequestHead, Error>,
}

impl RequestBuilder {
    /// The head so far, or the first thing that went wrong.
    pub closed spec fn view(&self) -> Result<HeadView, Error> {
        match self.inner {
            Ok(head) => Ok(head@),
            Err(error) => Err(error),
        }
    }

    /// A builder for a request with the given method and target.
    pub fn new(method: Method, uri: &str) -> (builder: Self)
        ensures
            match parsed_uri(uri@) {
                Ok((text, authority)) => builder@ == Ok::<HeadView, Error>(
                    initial_head(method@, UriView { text, authority }),
                ),
                Err(error) => builder@ == Err::<HeadView, Error>(Error::Http(error)),
            },
    {
        Self::with_uri(method, Uri::parse(uri))
    }

    /// A builder for a request with the given method and the outcome of reading
    /// its target.
    pub fn with_uri(method: Method, uri: Result<Uri, Error>) -> (builder: Self)
        ensures
            builder@ == (match uri {
                Ok(uri) => Ok::<HeadView, Error>(initial_head(method@, uri@)),
                Err(error) => Err::<HeadView, Error>(error),
            }),
    {
        match uri {
            Ok(uri) => RequestBuilder {
                inner: Ok(
                    RequestHead { method, uri, version: Version::Http11, headers: new_headers() },
                ),
            },
            Err(error) => RequestBuilder { inner: Err(error) },
        }
    }

    /// Adds a header field.
    pub fn header(self, name: &str, value: &[u8]) -> (builder: Self)
        ensures
            adds_header(self@, name@, value@, builder@),
    {
        match self.inner {
            Ok(head) => {
                let mut head = head;
                let ghost before = head@;
                match append_header(&mut head.headers, name, value) {
                    Ok(()) => {
                        assert(head@ =~= with_header(before, name@, value@));
                        RequestBuilder { inner: Ok(head) }
                    },
                    Err(error) => RequestBuilder { inner: Err(Error::Http(error)) },
                }
            },
            Err(error) => RequestBuilder { inner: Err(error) },
        }
    }

    /// Builds the request with the given body.
    pub fn body(self, body: Body) -> (built: Result<Request, Error>)
        ensures
            is_built(built, self@, body@),
            built matches Ok(request) ==> request.body == body,
    {
        match self.inner {
            Ok(head) => Ok(Request { head, body }),
            Err(error) => Err(error),
        }
    }

    /// Builds the request without a body.
    pub fn build(self) -> (built: Result<Request, Error>)
        ensures
            is_built(built, self@, BodyView::Bytes(Seq::empty())),
            built matches Ok(request) ==> request.body is Empty,
    {
        self.body(Body::empty())
    }

    /// Adds a `Content-Type` where there is none.
    pub fn ensure_content_type(self, value: &str) -> (builder: Self)
        ensures
            ensures_content_type(self@, encode_utf8(value@), builder@),
    {
        proof {
            lemma_known_names();
        }
        let present = match &self.inner {
            Ok(head) => first_value(&head.headers, CONTENT_TYPE).is_some(),
            Err(_) => false,
        };
        if present {
            self
        } else {
            self.header(CONTENT_TYPE, value.as_bytes())
        }
    }

    /// Builds the request with a text body, as `text/plain` in UTF-8 where no
    /// other type is set.
    pub fn text(self, text: &str) -> (built: Result<Request, Error>)
        ensures
            is_built_as(built, self@, MIME_TEXT@, encode_utf8(text@)),
    {
        let builder = self.ensure_content_type(MIME_TEXT);
        proof {
            lemma_mime_types();
        }
        builder.body(Body::bytes(text.as_bytes_vec()))
    }

    /// Builds the request with a body of bytes, as `application/octet-stream`
    /// where no other type is set.
    pub fn bytes(self, bytes: Vec<u8>) -> (built: Result<Request, Error>)
        ensures
            is_built_as(built, self@, MIME_BIN@, bytes@),
    {
        let builder = self.ensure_content_type(MIME_BIN);
        proof {
            lemma_mime_types();
        }
        builder.body(Body::bytes(bytes))
    }

    /// Builds the request with a JSON body, given what writing a value as JSON
    /// gave, as `application/json` where no other type is set.
    pub fn json(self, written: Result<Vec<u8>, JsonError>) -> (built: Result<Request, Error>)
        ensures
            match written {
                Ok(json) => is_built_as(built, self@, MIME_JSON@, json@),
                Err(error) => built == Err::<Request, Error>(Error::Json(error)),
            },
    {
        match written {
            Ok(json) => {
                let builder = self.ensure_content_type(MIME_JSON);
                proof {
                    lemma_mime_types();
                }
                builder.body(Body::bytes(json))
            },
            Err(error) => Err(Error::Json(error)),
        }
    }
}

/// The media types that the builder sets are valid header values.
proof fn lemma_mime_types()
    ensures
        valid_header_value(encode_utf8(MIME_TEXT@)),
        valid_header_value(encode_utf8(MIME_BIN@)),
        valid_header_value(encode_utf8(MIME_JSON@)),
        valid_header_name(CONTENT_TYPE@),
{
    lemma_known_names();
    reveal_strlit("text/plain; charset=utf-8");
    reveal_strlit("application/octet-stream");
    reveal_strlit("application/json");
    vstd::utf8::is_ascii_chars_encode_utf8(MIME_TEXT@);
    vstd::utf8::is_ascii_chars_encode_utf8(MIME_BIN@);
    vstd::utf8::is_ascii_chars_encode_utf8(MIME_JSON@);
}

/// A `Content-Type` that the caller adds is never replaced: the built request has
/// it, behind those added before, and no other.
pub proof fn law_given_content_type_kept(
    before: Result<HeadView, Error>,
    name: Seq<char>,
    value: Seq<u8>,
    after: Result<HeadView, Error>,
    mime: Seq<char>,
    bytes: Seq<u8>,
    built: Result<Request, Error>,
)
    requires
        header_key(name) == CONTENT_TYPE@,
        adds_header(before, name, value, after),
        after is Ok,
        is_built_as(built, after, mime, bytes),
    ensures
        built is Ok,
        built->Ok_0.head@.headers[CONTENT_TYPE@] == values_of(
            before->Ok_0.headers,
            CONTENT_TYPE@,
        ).push(value),
{
}

/// Making sure of a `Content-Type` a second time changes nothing, whatever type is
/// given.
pub proof fn law_content_type_ensured_once(
    before: Result<HeadView, Error>,
    first: Seq<u8>,
    after: Result<HeadView, Error>,
    second: Seq<u8>,
    again: Result<HeadView, Error>,
)
    requires
        ensures_content_type(before, first, after),
        ensures_content_type(after, second, again),
    ensures
        again == after,
{
    lemma_known_names();
}

/// Making sure of a `Content-Type` leaves a head that has one as it is, and gives a
/// roomy one that has none exactly the given value, which must be a header value.
pub proof fn law_content_type_ensured(
    before: HeadView,
    value: Seq<u8>,
    after: Result<HeadView, Error>,
)
    requires
        ensures_content_type(Ok(before), value, after),
    ensures
        before.headers.contains_key(CONTENT_TYPE@) ==> after == Ok::<HeadView, Error>(before),
        !before.headers.contains_key(CONTENT_TYPE@) && valid_header_value(value) && roomy(
            before.headers,
        ) ==> after == Ok::<HeadView, Error>(
            HeadView { headers: before.headers.insert(CONTENT_TYPE@, seq![value]), ..before },
        ),
{
    lemma_known_names();
    assert(Seq::<Seq<u8>>::empty().push(value) =~= seq![value]);
}

/// Once something has gone wrong, every further step leaves it, and building
/// reports it.
pub proof fn law_first_failure_stays(
    error: Error,
    name: Seq<char>,
    value: Seq<u8>,
    after: Result<HeadView, Error>,
    mime: Seq<char>,
    body: BodyView,
    bytes: Seq<u8>,
    built: Result<Request, Error>,
)
    requires
        adds_header(Err(error), name, value, after),
        is_built(built, after, body) || is_built_as(built, after, mime, bytes),
    ensures
        after == Err::<HeadView, Error>(error),
        built == Err::<Request, Error>(error),
{
}

/// Adding fields changes nothing but the fields: the method, the target, the
/// version and every other field stay.
pub proof fn law_header_changes_one_field(
    before: HeadView,
    name: Seq<char>,
    value: Seq<u8>,
    after: HeadView,
    other: Seq<char>,
)
    requires
        adds_header(Ok(before), name, value, Ok(after)),
        other != header_key(name),
    ensures
        after.method == before.method,
        after.uri == before.uri,
        after.version == before.version,
        values_of(after.headers, other) == values_of(before.headers, other),
        values_of(after.headers, header_key(name)) == values_of(
            before.headers,
            header_key(name),
        ).push(value),
{
}

/// What a head and a body are shown as is what they hold.
pub proof fn law_views_show_fields(head: RequestHead, bytes: Vec<u8>)
    ensures
        head@.method == head.method@,
        head@.uri == head.uri@,
        head@.version == head.version,
        head@.headers == header_entries(head.headers),
        Body::Empty@ == BodyView::Bytes(Seq::empty()),
        Body::Bytes(bytes)@ == BodyView::Bytes(bytes@),
        Body::Streaming@ == BodyView::Streaming,
{
}

/// A builder starts from the method and the target that it is given, without
/// fields, and as a request of HTTP/1.1.
pub proof fn law_builder_starts_plain(method: Seq<char>, uri: UriView)
    ensures
        initial_head(method, uri).method == method,
        initial_head(method, uri).uri == uri,
        initial_head(method, uri).version == Version::Http11,
        initial_head(method, uri).headers == Map::<Seq<char>, Seq<Seq<u8>>>::empty(),
{
}

/// Adding a field fails exactly where the name or the value is not valid, as long
/// as the head is roomy, and then nothing but that is wrong.
pub proof fn law_header_accepted_iff_valid(
    before: HeadView,
    name: Seq<char>,
    value: Seq<u8>,
    after: Result<HeadView, Error>,
)
    requires
        adds_header(Ok(before), name, value, after),
    ensures
        after is Ok ==> valid_header_name(name) && valid_header_value(value),
        roomy(before.headers) && valid_header_name(name) && valid_header_value(value)
            ==> after is Ok,
        after matches Err(error) ==> error == Error::Http(append_failure(name, value)),
{
}

/// The body of a built request is the one that was given: whatever the method and
/// the fields, a request that is built with some bytes has exactly those bytes.
pub proof fn law_built_body_is_given(
    state: Result<HeadView, Error>,
    mime: Seq<char>,
    bytes: Seq<u8>,
    built: Result<Request, Error>,
)
    requires
        is_built_as(built, state, mime, bytes),
        built is Ok,
    ensures
        built->Ok_0.body@ == BodyView::Bytes(bytes),
{
}

/// A request that is built with a given body has that body and the head that was
/// built up, whatever they are; and it is built unless something had gone wrong.
pub proof fn law_built_with_body(
    state: Result<HeadView, Error>,
    body: BodyView,
    built: Result<Request, Error>,
)
    requires
        is_built(built, state, body),
    ensures
        built is Ok <==> state is Ok,
        built is Ok ==> built->Ok_0.body@ == body,
        built is Ok ==> built->Ok_0.head@ == state->Ok_0,
{
}

/// Building with bytes succeeds where nothing had gone wrong and the head is roomy
/// or has a type, whatever the method and the bytes.
pub proof fn law_built_unless_failed(
    head: HeadView,
    mime: Seq<char>,
    bytes: Seq<u8>,
    built: Result<Request, Error>,
)
    requires
        is_built_as(built, Ok(head), mime, bytes),
        roomy(head.headers) || head.headers.contains_key(CONTENT_TYPE@),
    ensures
        built is Ok,
{
}

/// Building with bytes leaves the method, the target, the version and every field
/// but the `Content-Type`, which is the given type where there was none.
pub proof fn law_built_head(
    head: HeadView,
    mime: Seq<char>,
    bytes: Seq<u8>,
    built: Result<Request, Error>,
    other: Seq<char>,
)
    requires
        is_built_as(built, Ok(head), mime, bytes),
        built is Ok,
        other != CONTENT_TYPE@,
    ensures
        ({
            let after = built->Ok_0.head@;
            &&& after.method == head.method
            &&& after.uri == head.uri
            &&& after.version == head.version
            &&& after.headers.contains_key(other) <==> head.headers.contains_key(other)
            &&& head.headers.contains_key(other) ==> after.headers[other] == head.headers[other]
            &&& after.headers.contains_key(CONTENT_TYPE@)
            &&& after.headers[CONTENT_TYPE@] == (if head.headers.contains_key(CONTENT_TYPE@) {
                head.headers[CONTENT_TYPE@]
            } else {
                seq![encode_utf8(mime)]
            })
        }),
{
    lemma_known_names();
    assert(Seq::<Seq<u8>>::empty().push(encode_utf8(mime)) =~= seq![encode_utf8(mime)]);
}

} // verus!
