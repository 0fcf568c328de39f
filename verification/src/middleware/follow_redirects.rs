//! Following redirects.
//!
//! - 301, 302 and 303 are followed by a `GET` without a body.
//! - 307 and 308 are followed by the same method and body, where the body can be
//!   sent again, and are an error otherwise.
//!
//! [`FollowRedirects`] performs no I/O: whoever drives it sends the requests that
//! it gives and reports the responses.

use http::{Error as HttpError, HeaderMap, HeaderValue};
use vstd::prelude::*;

use crate::error::Error;
use crate::headers::{
    first_value, header_entries, lemma_known_names, remove_header, CONTENT_LENGTH, CONTENT_TYPE,
    LOCATION,
};
use crate::request::{Body, BodyView, HeadView, Method, Request, RequestHead};
use crate::text::{
    all_visible_ascii, ascii_chars, decimal, decimal_text, law_visible_bytes_are_their_characters,
    visible_text,
};
use crate::uri::{parsed_uri, Uri, UriView};

verus! {

/// Whether `status` is a redirect after which the body is dropped.
pub open spec fn drops_body(status: u16) -> bool {
    status == 301 || status == 302 || status == 303
}

/// Whether `status` is a redirect after which the body is sent again.
pub open spec fn keeps_body(status: u16) -> bool {
    status == 307 || status == 308
}

/// Whether `status` is a redirect that is followed.
pub open spec fn is_redirect(status: u16) -> bool {
    drops_body(status) || keeps_body(status)
}

/// The message for a chain of redirects that is too long.
pub open spec fn too_many_message(max_redirects: nat) -> Seq<char> {
    "Too many redirects (> "@ + decimal(max_redirects) + ")"@
}

/// The message for a redirect that does not say where to.
pub const MISSING_LOCATION: &'static str = "Redirect missing Location header";

/// The message for a redirect whose target is not text.
pub const INVALID_LOCATION: &'static str = "Invalid Location header";

/// The message for a body that would have to be sent twice.
pub const BODY_NOT_CLONEABLE: &'static str = "Cannot follow 307/308 redirect: body not cloneable";

/// Whether `error` is the general error with this message.
pub open spec fn says(error: Error, message: Seq<char>) -> bool {
    error matches Error::Other(text) && text@ == message
}

/// Where a response leads.
pub enum Target {
    /// It is no redirect.
    Final,
    /// It is one redirect too many.
    TooMany,
    /// It is a redirect without a target.
    NoLocation,
    /// It is a redirect whose target is not text.
    BadLocation,
    /// It is a redirect to this target.
    To(Seq<char>),
}

/// Where a response leads after `followed` redirects.
pub open spec fn target_of(
    max_redirects: nat,
    followed: nat,
    status: u16,
    headers: Map<Seq<char>, Seq<Seq<u8>>>,
) -> Target {
    if !is_redirect(status) {
        Target::Final
    } else if followed >= max_redirects {
        Target::TooMany
    } else if !headers.contains_key(LOCATION@) {
        Target::NoLocation
    } else if !all_visible_ascii(headers[LOCATION@][0]) {
        Target::BadLocation
    } else {
        Target::To(ascii_chars(headers[LOCATION@][0]))
    }
}

/// A request on its way through redirects.
#[verifier::ext_equal]
pub struct ChaseView {
    /// The head of the request that was sent last.
    pub head: HeadView,
    /// Its body, where that can be sent again.
    pub replay: Option<BodyView>,
    /// How many redirects have been followed.
    pub followed: nat,
}

/// A request on its way through redirects.
pub struct RedirectChase {
    head: RequestHead,
    replay: Option<Body>,
    followed: usize,
}

impl RedirectChase {
    /// The chase as values.
    pub closed spec fn view(&self) -> ChaseView {
        ChaseView {
            head: self.head@,
            replay: match self.replay {
                Some(body) => replay_of(body@),
                None => None,
            },
            followed: self.followed as nat,
        }
    }

    /// How many redirects have been followed.
    pub fn followed(&self) -> (followed: usize)
        ensures
            followed == self@.followed,
    {
        self.followed
    }
}

/// What comes after a response.
pub enum Hop {
    /// The response is handed to the caller.
    Deliver,
    /// The request is sent, and its response reported for the chase.
    Resend(RedirectChase, Request),
}

/// The body that a body can be sent again as.
pub open spec fn replay_of(body: BodyView) -> Option<BodyView> {
    if body is Streaming {
        None
    } else {
        Some(body)
    }
}

/// The head of the request that follows a redirect to `uri`.
pub open spec fn redirected_head(head: HeadView, status: u16, uri: UriView) -> HeadView {
    if drops_body(status) {
        HeadView {
            method: "GET"@,
            uri,
            headers: head.headers.remove(CONTENT_LENGTH@).remove(CONTENT_TYPE@),
            ..head
        }
    } else {
        HeadView { uri, ..head }
    }
}

/// The body of the request that follows a redirect, where there can be one.
pub open spec fn redirected_body(chase: ChaseView, status: u16) -> Option<BodyView> {
    if drops_body(status) {
        Some(BodyView::Bytes(Seq::empty()))
    } else {
        chase.replay
    }
}

/// The chase after one more redirect.
pub open spec fn next_chase(chase: ChaseView, status: u16, uri: UriView) -> ChaseView {
    ChaseView {
        head: redirected_head(chase.head, status, uri),
        replay: redirected_body(chase, status),
        followed: chase.followed + 1,
    }
}

/// Whether `hop` is what follows a redirect to `uri`: the request is sent again,
/// or fails where its body cannot be.
pub open spec fn follows(
    chase: ChaseView,
    status: u16,
    uri: UriView,
    hop: Result<Hop, Error>,
) -> bool {
    match redirected_body(chase, status) {
        Some(body) => {
            &&& hop matches Ok(Hop::Resend(next, request))
            &&& next@ == next_chase(chase, status, uri)
            &&& request.head@ == next@.head
            &&& request.body@ == body
        },
        None => hop matches Err(error) && says(error, BODY_NOT_CLONEABLE@),
    }
}

/// Whether `hop` is what comes after a response.
pub open spec fn answers(
    max_redirects: nat,
    chase: ChaseView,
    status: u16,
    headers: Map<Seq<char>, Seq<Seq<u8>>>,
    hop: Result<Hop, Error>,
) -> bool {
    match target_of(max_redirects, chase.followed, status, headers) {
        Target::Final => hop == Ok::<Hop, Error>(Hop::Deliver),
        Target::TooMany => hop matches Err(error) && says(error, too_many_message(max_redirects)),
        Target::NoLocation => hop matches Err(error) && says(error, MISSING_LOCATION@),
        Target::BadLocation => hop matches Err(error) && says(error, INVALID_LOCATION@),
        Target::To(text) => match parsed_uri(text) {
            Ok((text, authority)) => follows(chase, status, UriView { text, authority }, hop),
            Err(error) => hop == Err::<Hop, Error>(Error::Http(error)),
        },
    }
}

/// Middleware that follows redirects.
pub struct FollowRedirects {
    /// How many redirects are followed before the next one is an error.
    pub max_redirects: usize,
}

impl FollowRedirects {
    /// Middleware that follows up to `max_redirects` redirects.
    pub fn new(max_redirects: usize) -> (middleware: Self)
        ensures
            middleware.max_redirects == max_redirects,
    {
        FollowRedirects { max_redirects }
    }

    /// Starts with a request: gives the request to send first, and the chase for
    /// which its response is reported.
    pub fn begin(&self, request: Request) -> (started: (RedirectChase, Request))
        ensures
            started.0@ == (ChaseView {
                head: request.head@,
                replay: replay_of(request.body@),
                followed: 0,
            }),
            started.1.head@ == request.head@,
            started.1.body == request.body,
    {
        let replay = request.body.try_clone();
        let head = request.head.clone();
        let chase = RedirectChase { head, replay, followed: 0 };
        (chase, request)
    }

    /// Where a response leads after `followed` redirects: `None` where it is no
    /// redirect, else the target.
    pub fn redirect_target(
        &self,
        followed: usize,
        status: u16,
        headers: &HeaderMap<HeaderValue>,
    ) -> (target: Result<Option<String>, Error>)
        ensures
            match target_of(
                self.max_redirects as nat,
                followed as nat,
                status,
                header_entries(*headers),
            ) {
                Target::Final => target == Ok::<Option<String>, Error>(None),
                Target::TooMany => target matches Err(error) && says(
                    error,
                    too_many_message(self.max_redirects as nat),
                ),
                Target::NoLocation => target matches Err(error) && says(error, MISSING_LOCATION@),
                Target::BadLocation => target matches Err(error) && says(error, INVALID_LOCATION@),
                Target::To(text) => target matches Ok(Some(to)) && to@ == text,
            },
    {
        match status {
            301 | 302 | 303 | 307 | 308 => {},
            _ => {
                return Ok(None);
            },
        }
        if followed >= self.max_redirects {
            let mut message = "Too many redirects (> ".to_owned();
            message.append(decimal_text(self.max_redirects).as_str());
            message.append(")");
            return Err(Error::Other(message));
        }
        proof {
            lemma_known_names();
        }
        match first_value(headers, LOCATION) {
            None => Err(Error::Other(MISSING_LOCATION.to_owned())),
            Some(value) => match visible_text(value) {
                None => Err(Error::Other(INVALID_LOCATION.to_owned())),
                Some(text) => Ok(Some(text)),
            },
        }
    }

    /// Follows a redirect to `uri`.
    pub fn follow(&self, chase: RedirectChase, status: u16, uri: Uri) -> (hop: Result<Hop, Error>)
        requires
            is_redirect(status),
            chase@.followed < usize::MAX,
        ensures
            follows(chase@, status, uri@, hop),
    {
        let ghost before = chase@;
        let mut head = chase.head;
        head.uri = uri;
        let (body, replay) = match status {
            301 | 302 | 303 => {
                head.method = Method::Get;
                remove_header(&mut head.headers, CONTENT_LENGTH);
                remove_header(&mut head.headers, CONTENT_TYPE);
                proof {
                    lemma_known_names();
                }
                (Body::empty(), Some(Body::empty()))
            },
            _ => match chase.replay {
                Some(replay) => match replay.try_clone() {
                    Some(body) => (body, Some(replay)),
                    None => {
                        return Err(Error::Other(BODY_NOT_CLONEABLE.to_owned()));
                    },
                },
                None => {
                    return Err(Error::Other(BODY_NOT_CLONEABLE.to_owned()));
                },
            },
        };
        assert(head@ =~= redirected_head(before.head, status, uri@));
        let request = Request { head: head.clone(), body };
        let next = RedirectChase { head, replay, followed: chase.followed + 1 };
        assert(next@ =~= next_chase(before, status, uri@));
        Ok(Hop::Resend(next, request))
    }

    /// Says what comes after the response to the request of a chase.
    pub fn on_response(
        &self,
        chase: RedirectChase,
        status: u16,
        headers: &HeaderMap<HeaderValue>,
    ) -> (hop: Result<Hop, Error>)
        ensures
            answers(self.max_redirects as nat, chase@, status, header_entries(*headers), hop),
    {
        match self.redirect_target(chase.followed, status, headers) {
            Err(error) => Err(error),
            Ok(None) => Ok(Hop::Deliver),
            Ok(Some(text)) => match Uri::parse(text.as_str()) {
                Err(error) => Err(error),
                Ok(uri) => self.follow(chase, status, uri),
            },
        }
    }
}

/// A response as redirects see it: its status and its fields.
pub struct RedirectResponse {
    pub status: u16,
    pub headers: Map<Seq<char>, Seq<Seq<u8>>>,
}

/// The chase that a response leads to, where the request is sent again.
pub open spec fn resent(
    max_redirects: nat,
    chase: ChaseView,
    response: RedirectResponse,
) -> Option<ChaseView> {
    match target_of(max_redirects, chase.followed, response.status, response.headers) {
        Target::To(text) => match parsed_uri(text) {
            Ok((text, authority)) => if redirected_body(chase, response.status) is Some {
                Some(next_chase(chase, response.status, UriView { text, authority }))
            } else {
                None
            },
            Err(_) => None,
        },
        _ => None,
    }
}

/// The chase that some responses in turn lead to, where the request is sent again
/// after each.
pub open spec fn resent_each(
    max_redirects: nat,
    chase: ChaseView,
    responses: Seq<RedirectResponse>,
) -> Option<ChaseView>
    decreases responses.len(),
{
    if responses.len() == 0 {
        Some(chase)
    } else {
        match resent(max_redirects, chase, responses[0]) {
            Some(next) => resent_each(max_redirects, next, responses.skip(1)),
            None => None,
        }
    }
}

/// A request is sent again exactly where the responses say so: the outcome of a
/// response is another request if and only if [`resent`] gives a chase, and then
/// it is that one.
pub proof fn law_resend_iff(
    max_redirects: nat,
    chase: ChaseView,
    response: RedirectResponse,
    hop: Result<Hop, Error>,
)
    requires
        answers(max_redirects, chase, response.status, response.headers, hop),
    ensures
        resent(max_redirects, chase, response) is Some <==> hop is Ok && hop->Ok_0 is Resend,
        hop matches Ok(Hop::Resend(next, request)) ==> resent(max_redirects, chase, response)
            == Some(next@),
{
}

/// No more redirects are followed than allowed: if a request was sent again
/// after each of some responses, they are at most `max_redirects`, and the chase
/// has counted them.
pub proof fn law_redirects_bounded(
    max_redirects: nat,
    chase: ChaseView,
    responses: Seq<RedirectResponse>,
)
    requires
        chase.followed <= max_redirects,
        resent_each(max_redirects, chase, responses) is Some,
    ensures
        chase.followed + responses.len() <= max_redirects,
        resent_each(max_redirects, chase, responses).unwrap().followed == chase.followed
            + responses.len(),
    decreases responses.len(),
{
    if responses.len() > 0 {
        let next = resent(max_redirects, chase, responses[0]).unwrap();
        law_redirects_bounded(max_redirects, next, responses.skip(1));
    }
}

/// The redirect after the last allowed one is the error that says so, whatever
/// it carries.
pub proof fn law_one_too_many_fails(
    max_redirects: nat,
    chase: ChaseView,
    response: RedirectResponse,
    hop: Result<Hop, Error>,
)
    requires
        chase.followed >= max_redirects,
        is_redirect(response.status),
        answers(max_redirects, chase, response.status, response.headers, hop),
    ensures
        hop is Err,
        says(hop->Err_0, too_many_message(max_redirects)),
{
}

/// Whether every response keeps the method and the body.
pub open spec fn all_keep_body(responses: Seq<RedirectResponse>) -> bool {
    forall|i: int| 0 <= i < responses.len() ==> keeps_body((#[trigger] responses[i]).status)
}

/// However many 307 and 308 redirects are followed, the method, the fields and
/// the body stay what they were.
pub proof fn law_keeping_redirects_change_target_only(
    max_redirects: nat,
    chase: ChaseView,
    responses: Seq<RedirectResponse>,
)
    requires
        all_keep_body(responses),
        resent_each(max_redirects, chase, responses) is Some,
    ensures
        ({
            let end = resent_each(max_redirects, chase, responses).unwrap();
            &&& end.head.method == chase.head.method
            &&& end.head.headers == chase.head.headers
            &&& end.head.version == chase.head.version
            &&& end.replay == chase.replay
        }),
    decreases responses.len(),
{
    if responses.len() > 0 {
        let next = resent(max_redirects, chase, responses[0]).unwrap();
        assert(keeps_body(responses[0].status));
        let rest = responses.skip(1);
        assert forall|i: int| 0 <= i < rest.len() implies keeps_body(
            (#[trigger] rest[i]).status,
        ) by {
            assert(rest[i] == responses[i + 1]);
        }
        law_keeping_redirects_change_target_only(max_redirects, next, rest);
    }
}

/// Once a 301, 302 or 303 has been followed the request is a `GET` without a
/// body, and stays one through every later redirect.
pub proof fn law_get_stays_get(
    max_redirects: nat,
    chase: ChaseView,
    first: RedirectResponse,
    responses: Seq<RedirectResponse>,
)
    requires
        drops_body(first.status),
        resent_each(max_redirects, chase, seq![first] + responses) is Some,
    ensures
        ({
            let end = resent_each(max_redirects, chase, seq![first] + responses).unwrap();
            &&& end.head.method == "GET"@
            &&& end.replay == Some(BodyView::Bytes(Seq::empty()))
            &&& !end.head.headers.contains_key(CONTENT_LENGTH@)
            &&& !end.head.headers.contains_key(CONTENT_TYPE@)
        }),
{
    let all = seq![first] + responses;
    assert(all.skip(1) =~= responses);
    lemma_known_names();
    let next = resent(max_redirects, chase, first).unwrap();
    lemma_bodyless_get_stays(max_redirects, next, responses);
}

proof fn lemma_bodyless_get_stays(
    max_redirects: nat,
    chase: ChaseView,
    responses: Seq<RedirectResponse>,
)
    requires
        chase.head.method == "GET"@,
        chase.replay == Some(BodyView::Bytes(Seq::empty())),
        !chase.head.headers.contains_key(CONTENT_LENGTH@),
        !chase.head.headers.contains_key(CONTENT_TYPE@),
        resent_each(max_redirects, chase, responses) is Some,
    ensures
        ({
            let end = resent_each(max_redirects, chase, responses).unwrap();
            &&& end.head.method == "GET"@
            &&& end.replay == Some(BodyView::Bytes(Seq::empty()))
            &&& !end.head.headers.contains_key(CONTENT_LENGTH@)
            &&& !end.head.headers.contains_key(CONTENT_TYPE@)
        }),
    decreases responses.len(),
{
    if responses.len() > 0 {
        let next = resent(max_redirects, chase, responses[0]).unwrap();
        lemma_bodyless_get_stays(max_redirects, next, responses.skip(1));
    }
}

/// The statuses after which the request is sent elsewhere.
pub open spec fn redirect_statuses() -> Seq<u16> {
    seq![301u16, 302u16, 303u16, 307u16, 308u16]
}

/// A response is delivered exactly where it is no redirect, whatever its fields and
/// however many redirects came before.
pub proof fn law_delivered_iff_no_redirect(
    max_redirects: nat,
    chase: ChaseView,
    status: u16,
    headers: Map<Seq<char>, Seq<Seq<u8>>>,
    hop: Result<Hop, Error>,
)
    requires
        answers(max_redirects, chase, status, headers, hop),
    ensures
        hop == Ok::<Hop, Error>(Hop::Deliver) <==> !redirect_statuses().contains(status),
{
    let all = redirect_statuses();
    assert(all[0] == 301 && all[1] == 302 && all[2] == 303 && all[3] == 307 && all[4] == 308);
}

/// A redirect fails with the message that fits: for one too many, for one without a
/// target, and for one whose target is not text.
pub proof fn law_redirect_failures(
    max_redirects: nat,
    chase: ChaseView,
    status: u16,
    headers: Map<Seq<char>, Seq<Seq<u8>>>,
    hop: Result<Hop, Error>,
)
    requires
        answers(max_redirects, chase, status, headers, hop),
        redirect_statuses().contains(status),
    ensures
        chase.followed >= max_redirects ==> (hop matches Err(Error::Other(text)) && text@
            == "Too many redirects (> "@ + decimal(max_redirects) + ")"@),
        chase.followed < max_redirects && !headers.contains_key("location"@) ==> (
        hop matches Err(Error::Other(text)) && text@ == "Redirect missing Location header"@),
        chase.followed < max_redirects && headers.contains_key("location"@) && !(forall|i: int|
            0 <= i < headers["location"@][0].len() ==> (#[trigger] headers["location"@][0][i]) == 9
                || 32 <= headers["location"@][0][i] <= 126) ==> (hop matches Err(
            Error::Other(text),
        ) && text@ == "Invalid Location header"@),
{
    law_visible_bytes_are_their_characters(headers["location"@][0]);
}

/// A redirect that may be followed goes to its `Location`: the request is sent to
/// the target that this text is read as, with the version that it had and one more
/// redirect counted. A text that is no target is the error.
pub proof fn law_redirect_goes_to_location(
    max_redirects: nat,
    chase: ChaseView,
    status: u16,
    headers: Map<Seq<char>, Seq<Seq<u8>>>,
    location: Seq<char>,
    hop: Result<Hop, Error>,
)
    requires
        answers(max_redirects, chase, status, headers, hop),
        redirect_statuses().contains(status),
        chase.followed < max_redirects,
        headers.contains_key("location"@),
        location.len() == headers["location"@][0].len(),
        forall|i: int|
            0 <= i < location.len() ==> {
                let byte = headers["location"@][0][i];
                &&& (#[trigger] location[i]) as u32 == byte
                &&& byte == 9 || 32 <= byte <= 126
            },
    ensures
        parsed_uri(location) matches Err(error) ==> hop == Err::<Hop, Error>(Error::Http(error)),
        hop matches Ok(Hop::Resend(next, request)) ==> {
            &&& parsed_uri(location) == Ok::<(Seq<char>, Option<Seq<char>>), HttpError>(
                (request.head@.uri.text, request.head@.uri.authority),
            )
            &&& request.head@.version == chase.head.version
            &&& next@.head == request.head@
            &&& next@.followed == chase.followed + 1
            &&& next@.replay == Some(request.body@)
        },
        parsed_uri(location) is Ok && (chase.replay is Some || status < 307) ==> (
        hop matches Ok(Hop::Resend(next, request))),
{
    let value = headers["location"@][0];
    law_visible_bytes_are_their_characters(value);
    assert forall|i: int| 0 <= i < value.len() implies (#[trigger] value[i]) == 9 || 32 <= value[i]
        <= 126 by {
        let c = location[i];
    }
    assert(ascii_chars(value) =~= location) by {
        assert forall|i: int| 0 <= i < value.len() implies ascii_chars(value)[i] == location[i] by {
            assert(ascii_chars(value)[i] as u32 == value[i]);
            assert(location[i] as u32 == value[i]);
            vstd::utf8::char_u32_cast(location[i], location[i] as u32);
            vstd::utf8::char_u32_cast(ascii_chars(value)[i], ascii_chars(value)[i] as u32);
        }
    }
    let all = redirect_statuses();
    assert(all[0] == 301 && all[1] == 302 && all[2] == 303 && all[3] == 307 && all[4] == 308);
}

/// After 301, 302 and 303 the request is a `GET` without bytes, whatever it was; the
/// fields that spoke of its body are gone, and every other field stays.
pub proof fn law_dropping_redirect_gets(
    max_redirects: nat,
    chase: ChaseView,
    status: u16,
    headers: Map<Seq<char>, Seq<Seq<u8>>>,
    hop: Result<Hop, Error>,
    key: Seq<char>,
)
    requires
        answers(max_redirects, chase, status, headers, hop),
        status == 301 || status == 302 || status == 303,
        hop is Ok,
    ensures
        hop matches Ok(Hop::Resend(next, request)) && {
            let after = request.head@.headers;
            &&& request.head@.method == "GET"@
            &&& request.body@ == BodyView::Bytes(Seq::empty())
            &&& !after.contains_key("content-length"@)
            &&& !after.contains_key("content-type"@)
            &&& key != "content-length"@ && key != "content-type"@ ==> {
                &&& after.contains_key(key) <==> chase.head.headers.contains_key(key)
                &&& chase.head.headers.contains_key(key) ==> after[key] == chase.head.headers[key]
            }
        },
{
    lemma_known_names();
}

/// After 307 and 308 the request has the method, the fields and the body that it
/// had, where the body can be sent again; else there is no request and the message
/// says why.
pub proof fn law_keeping_redirect_repeats(
    max_redirects: nat,
    chase: ChaseView,
    status: u16,
    headers: Map<Seq<char>, Seq<Seq<u8>>>,
    hop: Result<Hop, Error>,
)
    requires
        answers(max_redirects, chase, status, headers, hop),
        status == 307 || status == 308,
    ensures
        hop matches Ok(answer) ==> (answer matches Hop::Resend(next, request) && {
            &&& request.head@.method == chase.head.method
            &&& request.head@.headers == chase.head.headers
            &&& chase.replay == Some(request.body@)
        }),
        chase.replay is None ==> hop is Err,
        chase.replay is None && target_of(
            max_redirects,
            chase.followed,
            status,
            headers,
        ) is To && parsed_uri(target_of(max_redirects, chase.followed, status, headers)->To_0) is Ok
            ==> (hop matches Err(Error::Other(text)) && text@
            == "Cannot follow 307/308 redirect: body not cloneable"@),
{
}

/// A body that is known in full can be sent again as it is, and no other can.
pub proof fn law_known_bodies_repeat(bytes: Seq<u8>)
    ensures
        replay_of(BodyView::Bytes(bytes)) == Some(BodyView::Bytes(bytes)),
        replay_of(BodyView::Streaming) is None,
{
}

} // verus!
