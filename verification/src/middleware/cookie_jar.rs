//! Cookies.
//!
//! A [`CookieJar`] keeps the cookies that peers set, each peer's by themselves,
//! and attaches them to later requests to the same peer. It performs no I/O:
//! whoever drives it calls [`CookieJar::attach`] before a request is forwarded and
//! [`CookieJar::store`] when its response has come.

use cookie::{Cookie, ParseError};
use dashmap::DashMap;
use http::{HeaderMap, HeaderValue};
use vstd::prelude::*;
use vstd::utf8::encode_utf8;

use crate::error::Error;
use crate::headers::{
    byte_seqs, every_value, header_entries, insert_failure, insert_header, lemma_known_names, roomy,
    valid_header_value, values_of, COOKIE, SET_COOKIE,
};
use crate::peer::{is_peer_of, key_error_text, parsed_endpoint_id, peer_id, PeerId};
use crate::request::{HeadView, RequestHead};
use crate::text::{
    all_visible_ascii, ascii_chars, law_visible_bytes_are_their_characters, visible_text,
};

verus! {

/// Declares the concurrent map of the `dashmap` crate.
#[verifier::external_type_specification]
#[verifier::external_body]
#[verifier::reject_recursive_types(K)]
#[verifier::reject_recursive_types(V)]
#[verifier::reject_recursive_types(S)]
pub struct ExDashMap<K, V, S>(DashMap<K, V, S>);

/// Declares the error of reading a cookie.
#[verifier::external_type_specification]
#[verifier::external_body]
pub struct ExParseError(ParseError);

// ---------------------------------------------------------------------------
// The stored cookies
// ---------------------------------------------------------------------------

/// What the map of a jar holds: for each peer, the encoded cookies by name.
pub uninterp spec fn jar_entries(
    jar: DashMap<[u8; 32], DashMap<String, String>>,
) -> Map<Seq<u8>, Map<Seq<char>, Seq<char>>>;

/// The contents of a jar without cookies.
pub open spec fn no_cookies() -> Map<Seq<u8>, Map<Seq<char>, Seq<char>>> {
    Map::empty()
}

/// The cookies of a peer.
pub open spec fn cookies_of(
    jar: Map<Seq<u8>, Map<Seq<char>, Seq<char>>>,
    peer: Seq<u8>,
) -> Map<Seq<char>, Seq<char>> {
    if jar.contains_key(peer) {
        jar[peer]
    } else {
        Map::empty()
    }
}

/// A jar with one more cookie of a peer, in place of one of the same name.
pub open spec fn with_cookie(
    jar: Map<Seq<u8>, Map<Seq<char>, Seq<char>>>,
    peer: Seq<u8>,
    name: Seq<char>,
    encoded: Seq<char>,
) -> Map<Seq<u8>, Map<Seq<char>, Seq<char>>> {
    jar.insert(peer, cookies_of(jar, peer).insert(name, encoded))
}

/// Whether `listed` holds each cookie once, in some order.
pub open spec fn lists(listed: Seq<(String, String)>, cookies: Map<Seq<char>, Seq<char>>) -> bool {
    &&& forall|i: int, j: int|
        0 <= i < j < listed.len() ==> (#[trigger] listed[i]).0@ != (#[trigger] listed[j]).0@
    &&& forall|i: int|
        0 <= i < listed.len() ==> cookies.contains_pair(
            (#[trigger] listed[i]).0@,
            listed[i].1@,
        )
    &&& forall|name: Seq<char>| #[trigger]
        cookies.contains_key(name) ==> exists|i: int|
            0 <= i < listed.len() && (#[trigger] listed[i]).0@ == name
}

/// Calls `DashMap::new`. Trusted: the map holds nothing.
#[verifier::external_body]
fn new_jar() -> (jar: DashMap<[u8; 32], DashMap<String, String>>)
    ensures
        jar_entries(jar) == no_cookies(),
{
    DashMap::new()
}

/// Calls `DashMap::get` and `DashMap::iter` on what that finds. Trusted: it gives
/// each cookie of the peer once, and none where the peer has no map. The order
/// differs from map to map and is not stated.
#[verifier::external_body]
fn list_cookies(
    jar: &DashMap<[u8; 32], DashMap<String, String>>,
    peer: &[u8; 32],
) -> (listed: Option<Vec<(String, String)>>)
    ensures
        listed is Some <==> jar_entries(*jar).contains_key(peer@),
        listed matches Some(cookies) ==> lists(cookies@, jar_entries(*jar)[peer@]),
{
    jar.get(peer).map(|cookies| {
        cookies.iter().map(|entry| (entry.key().clone(), entry.value().clone())).collect()
    })
}

/// Calls `DashMap::entry`, `or_default` on the entry, and `DashMap::insert` on
/// what that gives. Trusted: the peer's map, which is made where it is missing,
/// gets the cookie in place of one of the same name, and nothing else changes.
#[verifier::external_body]
fn put_cookie(
    jar: &mut DashMap<[u8; 32], DashMap<String, String>>,
    peer: [u8; 32],
    name: String,
    encoded: String,
)
    ensures
        jar_entries(*final(jar)) == with_cookie(jar_entries(*old(jar)), peer@, name@, encoded@),
{
    jar.entry(peer).or_default().insert(name, encoded);
}

// ---------------------------------------------------------------------------
// Reading a cookie
// ---------------------------------------------------------------------------

/// The name of the cookie that the `cookie` crate reads in the text of a
/// `Set-Cookie` field, and the cookie written back; `None` where it reads none.
pub uninterp spec fn parsed_cookie(text: Seq<char>) -> Option<(Seq<char>, Seq<char>)>;

/// Calls `Cookie::parse_encoded`, and `Cookie::name` and `Cookie::encoded` on what
/// that reads. Trusted: the outcome is a function of the text alone. The grammar
/// of cookies is not stated.
#[verifier::external_body]
fn read_cookie(text: &str) -> (cookie: Result<(String, String), ParseError>)
    ensures
        cookie is Ok <==> parsed_cookie(text@) is Some,
        cookie matches Ok((name, encoded)) ==> parsed_cookie(text@) == Some((name@, encoded@)),
{
    let cookie = Cookie::parse_encoded(text)?;
    Ok((cookie.name().to_string(), cookie.encoded().to_string()))
}

/// The cookie of a `Set-Cookie` field, where its value is the text of one.
pub open spec fn set_cookie(value: Seq<u8>) -> Option<(Seq<char>, Seq<char>)> {
    if all_visible_ascii(value) {
        parsed_cookie(ascii_chars(value))
    } else {
        None
    }
}

/// A jar after the `Set-Cookie` fields of a response of a peer: each that holds a
/// cookie stores it, in order, and the others are passed over.
pub open spec fn after_set_cookies(
    jar: Map<Seq<u8>, Map<Seq<char>, Seq<char>>>,
    peer: Seq<u8>,
    values: Seq<Seq<u8>>,
) -> Map<Seq<u8>, Map<Seq<char>, Seq<char>>>
    decreases values.len(),
{
    if values.len() == 0 {
        jar
    } else {
        let before = after_set_cookies(jar, peer, values.drop_last());
        match set_cookie(values.last()) {
            Some((name, encoded)) => with_cookie(before, peer, name, encoded),
            None => before,
        }
    }
}

// ---------------------------------------------------------------------------
// The `Cookie` field
// ---------------------------------------------------------------------------

/// The text of the `Cookie` field for some cookies in this order.
pub open spec fn cookie_text(listed: Seq<(String, String)>) -> Seq<char>
    decreases listed.len(),
{
    if listed.len() == 0 {
        Seq::empty()
    } else if listed.len() == 1 {
        listed[0].1@
    } else {
        cookie_text(listed.drop_last()) + "; "@ + listed.last().1@
    }
}

/// The text of the `Cookie` field for some cookies in this order.
pub fn cookie_header(listed: &Vec<(String, String)>) -> (text: String)
    ensures
        text@ == cookie_text(listed@),
{
    let mut text = String::new();
    let mut i: usize = 0;
    assert(listed@.take(0) =~= Seq::empty());
    while i < listed.len()
        invariant
            i <= listed@.len(),
            text@ == cookie_text(listed@.take(i as int)),
        decreases listed@.len() - i,
    {
        let ghost next = listed@.take(i + 1);
        assert(next.drop_last() =~= listed@.take(i as int));
        if i > 0 {
            text.append("; ");
        }
        text.append(listed[i].1.as_str());
        assert(text@ =~= cookie_text(next));
        i = i + 1;
    }
    assert(listed@.take(i as int) =~= listed@);
    text
}

/// `head` with this text as its only `Cookie` field.
pub open spec fn with_cookie_field(head: HeadView, text: Seq<char>) -> HeadView {
    HeadView { headers: head.headers.insert(COOKIE@, seq![encode_utf8(text)]), ..head }
}

/// Whether `set` and `after` are the outcome of setting the `Cookie` field of
/// `before`: it is set, or that fails and changes nothing; it fails where the
/// text is no header value, and succeeds where it is and the head is roomy.
pub open spec fn sets_cookie_field(
    before: HeadView,
    text: Seq<char>,
    after: HeadView,
    set: Result<(), Error>,
) -> bool {
    match set {
        Ok(()) => valid_header_value(encode_utf8(text)) && after == with_cookie_field(before, text),
        Err(error) => {
            &&& error == Error::Http(insert_failure(COOKIE@, encode_utf8(text)))
            &&& after == before
            &&& !(valid_header_value(encode_utf8(text)) && roomy(before.headers))
        },
    }
}

/// Sets the `Cookie` field of a request in place of those it has.
pub fn set_cookie_field(head: &mut RequestHead, text: &str) -> (set: Result<(), Error>)
    ensures
        sets_cookie_field(old(head)@, text@, final(head)@, set),
{
    proof {
        lemma_known_names();
    }
    match insert_header(&mut head.headers, COOKIE, text.as_bytes()) {
        Ok(()) => {
            assert(head@ =~= with_cookie_field(old(head)@, text@));
            Ok(())
        },
        Err(error) => Err(Error::Http(error)),
    }
}

/// Whether `set` and `after` are the outcome of setting the `Cookie` field of
/// `before` to some cookies, in whatever order they are listed.
pub open spec fn sets_some_order(
    cookies: Map<Seq<char>, Seq<char>>,
    before: HeadView,
    after: HeadView,
    set: Result<(), Error>,
) -> bool {
    exists|listed: Seq<(String, String)>|
        #[trigger] lists(listed, cookies) && sets_cookie_field(
            before,
            cookie_text(listed),
            after,
            set,
        )
}

/// An outcome without its value.
pub open spec fn without_value<T>(outcome: Result<T, Error>) -> Result<(), Error> {
    match outcome {
        Ok(value) => Ok(()),
        Err(error) => Err(error),
    }
}

/// Whether `peer` and `after` are the outcome of attaching the cookies of a jar to
/// a request for the peer with this id: its cookies become the `Cookie` field, and
/// a request for a peer without cookies stays as it is.
pub open spec fn attaches_for(
    jar: Map<Seq<u8>, Map<Seq<char>, Seq<char>>>,
    id: Seq<u8>,
    before: HeadView,
    after: HeadView,
    peer: Result<PeerId, Error>,
) -> bool {
    &&& peer matches Ok(named) ==> named@ == id
    &&& if cookies_of(jar, id) == Map::<Seq<char>, Seq<char>>::empty() {
        peer is Ok && after == before
    } else {
        sets_some_order(cookies_of(jar, id), before, after, without_value(peer))
    }
}

/// Whether `peer` and `after` are the outcome of attaching the cookies of a jar to
/// `before`: those of the peer that the target names, where it names one; else
/// the request stays as it is and what is wrong with the target is reported.
pub open spec fn attaches(
    jar: Map<Seq<u8>, Map<Seq<char>, Seq<char>>>,
    before: HeadView,
    after: HeadView,
    peer: Result<PeerId, Error>,
) -> bool {
    if before.uri.authority is Some && parsed_endpoint_id(before.uri.authority->0) is Ok {
        attaches_for(jar, parsed_endpoint_id(before.uri.authority->0)->Ok_0, before, after, peer)
    } else {
        is_peer_of(before.uri.authority, peer) && after == before
    }
}

// ---------------------------------------------------------------------------
// The jar
// ---------------------------------------------------------------------------

/// A store of cookies, each peer's by themselves.
pub struct CookieJar {
    cookies: DashMap<[u8; 32], DashMap<String, String>>,
}

impl CookieJar {
    /// For each peer, the encoded cookies by name.
    pub closed spec fn view(&self) -> Map<Seq<u8>, Map<Seq<char>, Seq<char>>> {
        jar_entries(self.cookies)
    }

    /// A jar without cookies.
    pub fn new() -> (jar: Self)
        ensures
            jar@ == no_cookies(),
    {
        CookieJar { cookies: new_jar() }
    }

    /// Attaches the cookies of the peer that a request names, and gives that peer.
    pub fn attach(&self, head: &mut RequestHead) -> (peer: Result<PeerId, Error>)
        ensures
            attaches(self@, old(head)@, final(head)@, peer),
    {
        let peer = match peer_id(&head.uri) {
            Ok(peer) => peer,
            Err(error) => {
                return Err(error);
            },
        };
        let ghost stored = cookies_of(self@, peer@);
        match list_cookies(&self.cookies, &peer.bytes) {
            None => Ok(peer),
            Some(listed) => {
                if listed.len() == 0 {
                    proof {
                        assert forall|name: Seq<char>| !#[trigger] stored.contains_key(name) by {}
                        assert(stored =~= Map::empty());
                    }
                    return Ok(peer);
                }
                proof {
                    assert(stored.contains_pair(listed@[0].0@, listed@[0].1@));
                    assert(stored != Map::<Seq<char>, Seq<char>>::empty());
                }
                let text = cookie_header(&listed);
                assert(lists(listed@, stored));
                match set_cookie_field(head, text.as_str()) {
                    Ok(()) => Ok(peer),
                    Err(error) => Err(error),
                }
            },
        }
    }

    /// Stores one cookie of a peer.
    pub fn remember(&mut self, peer: &PeerId, name: String, encoded: String)
        ensures
            final(self)@ == with_cookie(old(self)@, peer@, name@, encoded@),
    {
        put_cookie(&mut self.cookies, peer.bytes, name, encoded);
    }

    /// Stores the cookies that a response of a peer sets.
    pub fn store(&mut self, peer: &PeerId, headers: &HeaderMap<HeaderValue>)
        ensures
            final(self)@ == after_set_cookies(
                old(self)@,
                peer@,
                values_of(header_entries(*headers), SET_COOKIE@),
            ),
    {
        proof {
            lemma_known_names();
        }
        let values = every_value(headers, SET_COOKIE);
        let ghost all = byte_seqs(values@);
        let ghost given = values@;
        let mut i: usize = 0;
        assert(all.take(0) =~= Seq::empty());
        while i < values.len()
            invariant
                values@ == given,
                all == byte_seqs(given),
                i <= given.len(),
                self@ == after_set_cookies(old(self)@, peer@, all.take(i as int)),
            decreases given.len() - i,
        {
            let ghost next = all.take(i + 1);
            assert(next.drop_last() =~= all.take(i as int));
            assert(next.last() == given[i as int]@);
            let mut value: Vec<u8> = Vec::new();
            value.extend_from_slice(values[i].as_slice());
            assert(value@ =~= given[i as int]@);
            if let Some(text) = visible_text(value) {
                if let Ok((name, encoded)) = read_cookie(text.as_str()) {
                    self.remember(peer, name, encoded);
                }
            }
            i = i + 1;
        }
        assert(all.take(i as int) =~= all);
    }
}

// ---------------------------------------------------------------------------
// Laws
// ---------------------------------------------------------------------------

/// The cookies of one peer are not touched by the responses of another.
pub proof fn law_peers_apart(
    jar: Map<Seq<u8>, Map<Seq<char>, Seq<char>>>,
    peer: Seq<u8>,
    values: Seq<Seq<u8>>,
    other: Seq<u8>,
)
    requires
        other != peer,
    ensures
        cookies_of(after_set_cookies(jar, peer, values), other) == cookies_of(jar, other),
    decreases values.len(),
{
    if values.len() > 0 {
        law_peers_apart(jar, peer, values.drop_last(), other);
    }
}

/// Whether the value sets a cookie of that name.
pub open spec fn sets(value: Seq<u8>, name: Seq<char>) -> bool {
    set_cookie(value) matches Some((set, encoded)) && set == name
}

/// Of the fields of a response that set a cookie of some name, the last one
/// counts.
pub proof fn law_last_cookie_counts(
    jar: Map<Seq<u8>, Map<Seq<char>, Seq<char>>>,
    peer: Seq<u8>,
    values: Seq<Seq<u8>>,
    at: int,
    name: Seq<char>,
    encoded: Seq<char>,
)
    requires
        0 <= at < values.len(),
        set_cookie(values[at]) == Some((name, encoded)),
        forall|i: int| at < i < values.len() ==> !sets(#[trigger] values[i], name),
    ensures
        cookies_of(after_set_cookies(jar, peer, values), peer).contains_pair(name, encoded),
    decreases values.len(),
{
    let init = values.drop_last();
    if at < values.len() - 1 {
        assert forall|i: int| at < i < init.len() implies !sets(#[trigger] init[i], name) by {
            assert(init[i] == values[i]);
        }
        assert(init[at] == values[at]);
        law_last_cookie_counts(jar, peer, init, at, name, encoded);
        assert(!sets(values[values.len() - 1], name));
    }
}

/// A cookie that no field of a response sets stays what it was.
pub proof fn law_other_cookies_stay(
    jar: Map<Seq<u8>, Map<Seq<char>, Seq<char>>>,
    peer: Seq<u8>,
    values: Seq<Seq<u8>>,
    name: Seq<char>,
)
    requires
        forall|i: int| 0 <= i < values.len() ==> !sets(#[trigger] values[i], name),
    ensures
        ({
            let before = cookies_of(jar, peer);
            let after = cookies_of(after_set_cookies(jar, peer, values), peer);
            &&& after.contains_key(name) <==> before.contains_key(name)
            &&& before.contains_key(name) ==> after[name] == before[name]
        }),
    decreases values.len(),
{
    if values.len() > 0 {
        let init = values.drop_last();
        assert forall|i: int| 0 <= i < init.len() implies !sets(#[trigger] init[i], name) by {
            assert(init[i] == values[i]);
        }
        law_other_cookies_stay(jar, peer, init, name);
        assert(!sets(values[values.len() - 1], name));
    }
}

/// Whether a request has one `Cookie` field, that field lists some cookies, and one
/// of them is the cookie with this name and text.
pub open spec fn sends_cookie(
    head: HeadView,
    cookies: Map<Seq<char>, Seq<char>>,
    name: Seq<char>,
    encoded: Seq<char>,
) -> bool {
    exists|listed: Seq<(String, String)>, at: int|
        #![trigger lists(listed, cookies), listed[at]]
        {
            &&& lists(listed, cookies)
            &&& head.headers.contains_key(COOKIE@)
            &&& head.headers[COOKIE@] == seq![encode_utf8(cookie_text(listed))]
            &&& 0 <= at < listed.len()
            &&& listed[at].0@ == name
            &&& listed[at].1@ == encoded
        }
}

/// Every stored cookie is sent: a request to which the cookies of a peer were
/// attached has one `Cookie` field, which is the list of the cookies of the peer,
/// and each of them stands in the list once.
pub proof fn law_stored_cookie_sent(
    jar: Map<Seq<u8>, Map<Seq<char>, Seq<char>>>,
    before: HeadView,
    after: HeadView,
    peer: PeerId,
    name: Seq<char>,
    encoded: Seq<char>,
)
    requires
        attaches(jar, before, after, Ok(peer)),
        cookies_of(jar, peer@).contains_pair(name, encoded),
    ensures
        sends_cookie(after, cookies_of(jar, peer@), name, encoded),
{
    let cookies = cookies_of(jar, peer@);
    assert(cookies.contains_key(name));
    assert(cookies != Map::<Seq<char>, Seq<char>>::empty());
    let outcome: Result<PeerId, Error> = Ok(peer);
    assert(sets_some_order(cookies, before, after, without_value(outcome)));
    let listed = choose|listed: Seq<(String, String)>|
        #[trigger] lists(listed, cookies) && sets_cookie_field(
            before,
            cookie_text(listed),
            after,
            without_value(outcome),
        );
    let at = choose|i: int| 0 <= i < listed.len() && (#[trigger] listed[i]).0@ == name;
    assert(cookies.contains_pair(listed[at].0@, listed[at].1@));
}

/// Only stored cookies are sent: where cookies of a peer are attached, what the
/// field lists are cookies of that peer.
pub proof fn law_only_stored_cookies_sent(
    jar: Map<Seq<u8>, Map<Seq<char>, Seq<char>>>,
    before: HeadView,
    after: HeadView,
    peer: PeerId,
)
    requires
        attaches(jar, before, after, Ok(peer)),
        cookies_of(jar, peer@) != Map::<Seq<char>, Seq<char>>::empty(),
    ensures
        exists|listed: Seq<(String, String)>| #[trigger]
            lists(listed, cookies_of(jar, peer@)) && after == with_cookie_field(
                before,
                cookie_text(listed),
            ),
{
    let outcome: Result<PeerId, Error> = Ok(peer);
    assert(sets_some_order(cookies_of(jar, peer@), before, after, without_value(outcome)));
}

/// What a peer sets is sent back to it: when a response of a peer has set a
/// cookie, the next request for that peer carries it.
pub proof fn law_set_cookie_sent_back(
    jar: Map<Seq<u8>, Map<Seq<char>, Seq<char>>>,
    values: Seq<Seq<u8>>,
    at: int,
    name: Seq<char>,
    encoded: Seq<char>,
    before: HeadView,
    after: HeadView,
    peer: PeerId,
)
    requires
        0 <= at < values.len(),
        set_cookie(values[at]) == Some((name, encoded)),
        forall|i: int| at < i < values.len() ==> !sets(#[trigger] values[i], name),
        attaches(after_set_cookies(jar, peer@, values), before, after, Ok(peer)),
    ensures
        sends_cookie(
            after,
            cookies_of(after_set_cookies(jar, peer@, values), peer@),
            name,
            encoded,
        ),
{
    law_last_cookie_counts(jar, peer@, values, at, name, encoded);
    law_stored_cookie_sent(
        after_set_cookies(jar, peer@, values),
        before,
        after,
        peer,
        name,
        encoded,
    );
}

/// A request for a peer that has set no cookie is not changed.
pub proof fn law_no_cookies_no_field(
    jar: Map<Seq<u8>, Map<Seq<char>, Seq<char>>>,
    before: HeadView,
    after: HeadView,
    peer: PeerId,
)
    requires
        attaches(jar, before, after, Ok(peer)),
        cookies_of(jar, peer@) == Map::<Seq<char>, Seq<char>>::empty(),
    ensures
        after == before,
{
}

/// The cookies of a peer are those that the jar holds for it, and none where it
/// holds none.
pub proof fn law_cookies_are_what_is_held(
    jar: Map<Seq<u8>, Map<Seq<char>, Seq<char>>>,
    peer: Seq<u8>,
)
    ensures
        jar.contains_key(peer) ==> cookies_of(jar, peer) == jar[peer],
        !jar.contains_key(peer) ==> cookies_of(jar, peer) == Map::<Seq<char>, Seq<char>>::empty(),
        cookies_of(no_cookies(), peer) == Map::<Seq<char>, Seq<char>>::empty(),
{
}

/// Storing a cookie gives the peer that cookie under its name, whatever name and
/// text it has, and touches no other cookie and no other peer.
pub proof fn law_cookie_is_stored(
    jar: Map<Seq<u8>, Map<Seq<char>, Seq<char>>>,
    peer: Seq<u8>,
    name: Seq<char>,
    encoded: Seq<char>,
    other: Seq<u8>,
    other_name: Seq<char>,
)
    requires
        other != peer,
        other_name != name,
    ensures
        ({
            let after = with_cookie(jar, peer, name, encoded);
            let before = cookies_of(jar, peer);
            &&& cookies_of(after, peer).contains_pair(name, encoded)
            &&& cookies_of(after, peer).contains_key(other_name) <==> before.contains_key(other_name)
            &&& before.contains_key(other_name) ==> cookies_of(after, peer)[other_name]
                == before[other_name]
            &&& cookies_of(after, other) == cookies_of(jar, other)
        }),
{
}

/// A `Set-Cookie` field sets the cookie that its text is read as, and nothing where
/// it is not text or no cookie.
pub proof fn law_field_sets_its_cookie(value: Seq<u8>, text: Seq<char>)
    requires
        text.len() == value.len(),
        forall|i: int| 0 <= i < text.len() ==> (#[trigger] text[i]) as u32 == value[i],
    ensures
        (forall|i: int|
            0 <= i < value.len() ==> (#[trigger] value[i]) == 9 || 32 <= value[i] <= 126)
            ==> set_cookie(value) == parsed_cookie(text),
        !(forall|i: int|
            0 <= i < value.len() ==> (#[trigger] value[i]) == 9 || 32 <= value[i] <= 126)
            ==> set_cookie(value) is None,
{
    law_visible_bytes_are_their_characters(value);
    if all_visible_ascii(value) {
        assert(ascii_chars(value) =~= text) by {
            assert forall|i: int| 0 <= i < value.len() implies ascii_chars(value)[i] == text[i] by {
                assert(ascii_chars(value)[i] as u32 == value[i]);
                assert(text[i] as u32 == value[i]);
                vstd::utf8::char_u32_cast(text[i], text[i] as u32);
                vstd::utf8::char_u32_cast(ascii_chars(value)[i], ascii_chars(value)[i] as u32);
            }
        }
    }
}

/// One more `Set-Cookie` field stores its cookie on top of what the others stored,
/// and one that sets none changes nothing.
pub proof fn law_each_field_is_stored(
    jar: Map<Seq<u8>, Map<Seq<char>, Seq<char>>>,
    peer: Seq<u8>,
    values: Seq<Seq<u8>>,
    value: Seq<u8>,
)
    ensures
        after_set_cookies(jar, peer, Seq::empty()) == jar,
        set_cookie(value) is None ==> after_set_cookies(jar, peer, values.push(value))
            == after_set_cookies(jar, peer, values),
        set_cookie(value) matches Some((name, encoded)) ==> cookies_of(
            after_set_cookies(jar, peer, values.push(value)),
            peer,
        ) == cookies_of(after_set_cookies(jar, peer, values), peer).insert(name, encoded),
{
    assert(values.push(value).drop_last() =~= values);
}

/// The text of the `Cookie` field is the texts of the cookies as they are, empty
/// ones among them, with a semicolon and a space between each two.
pub proof fn law_cookies_are_listed(listed: Seq<(String, String)>, cookie: (String, String))
    ensures
        cookie_text(Seq::empty()).len() == 0,
        listed.len() == 0 ==> cookie_text(listed.push(cookie)) == cookie.1@,
        listed.len() > 0 ==> cookie_text(listed.push(cookie)) == cookie_text(listed) + "; "@
            + cookie.1@,
        listed.len() > 0 ==> cookie_text(listed.push(cookie)).len() == cookie_text(listed).len() + 2
            + cookie.1@.len(),
{
    let all = listed.push(cookie);
    assert(all.drop_last() =~= listed);
    reveal_strlit("; ");
}

/// Attaching cookies changes the `Cookie` field and nothing else of a request: the
/// method, the target, the version and every other field stay. Where it fails,
/// nothing changes at all.
pub proof fn law_attaching_changes_one_field(
    jar: Map<Seq<u8>, Map<Seq<char>, Seq<char>>>,
    before: HeadView,
    after: HeadView,
    peer: Result<PeerId, Error>,
    key: Seq<char>,
)
    requires
        attaches(jar, before, after, peer),
        key != "cookie"@,
    ensures
        after.method == before.method,
        after.uri == before.uri,
        after.version == before.version,
        after.headers.contains_key(key) <==> before.headers.contains_key(key),
        before.headers.contains_key(key) ==> after.headers[key] == before.headers[key],
        peer is Err ==> after == before,
{
    if before.uri.authority is Some && parsed_endpoint_id(before.uri.authority->0) is Ok {
        let id = parsed_endpoint_id(before.uri.authority->0)->Ok_0;
        if cookies_of(jar, id) != Map::<Seq<char>, Seq<char>>::empty() {
            assert(sets_some_order(cookies_of(jar, id), before, after, without_value(peer)));
        }
    }
}

/// Cookies are attached for the peer that the target names. A target that names no
/// peer is the error, and the only other one is that the field is refused.
pub proof fn law_attached_for_the_named_peer(
    jar: Map<Seq<u8>, Map<Seq<char>, Seq<char>>>,
    before: HeadView,
    after: HeadView,
    peer: Result<PeerId, Error>,
)
    requires
        attaches(jar, before, after, peer),
    ensures
        peer matches Ok(named) ==> before.uri.authority is Some && parsed_endpoint_id(
            before.uri.authority->0,
        ) == Ok::<Seq<u8>, Seq<char>>(named@),
        before.uri.authority is None ==> peer == Err::<PeerId, Error>(Error::MissingAuthority),
        before.uri.authority is Some && parsed_endpoint_id(before.uri.authority->0) is Err ==> (
        peer matches Err(Error::BadPeerId(error)) && parsed_endpoint_id(before.uri.authority->0)
            == Err::<Seq<u8>, Seq<char>>(key_error_text(error))),
        before.uri.authority is Some && parsed_endpoint_id(before.uri.authority->0) is Ok
            && peer is Err ==> peer->Err_0 is Http,
{
    if before.uri.authority is Some && parsed_endpoint_id(before.uri.authority->0) is Ok {
        let id = parsed_endpoint_id(before.uri.authority->0)->Ok_0;
        if cookies_of(jar, id) != Map::<Seq<char>, Seq<char>>::empty() {
            assert(sets_some_order(cookies_of(jar, id), before, after, without_value(peer)));
        }
    }
}

/// A text is encoded part by part.
proof fn lemma_encode_concat(left: Seq<char>, right: Seq<char>)
    ensures
        encode_utf8(left + right) == encode_utf8(left) + encode_utf8(right),
    decreases left.len(),
{
    if left.len() == 0 {
        assert(left + right =~= right);
        assert(encode_utf8(left) + encode_utf8(right) =~= encode_utf8(right));
    } else {
        lemma_encode_concat(left.drop_first(), right);
        assert((left + right).drop_first() =~= left.drop_first() + right);
        assert((left + right)[0] == left[0]);
        assert(encode_utf8(left + right) =~= encode_utf8(left) + encode_utf8(right));
    }
}

/// Cookies that are header values make up a header value.
proof fn lemma_cookie_text_valid(listed: Seq<(String, String)>)
    requires
        forall|i: int|
            0 <= i < listed.len() ==> valid_header_value(encode_utf8((#[trigger] listed[i]).1@)),
    ensures
        valid_header_value(encode_utf8(cookie_text(listed))),
    decreases listed.len(),
{
    if listed.len() == 1 {
        assert(valid_header_value(encode_utf8(listed[0].1@)));
    } else if listed.len() > 1 {
        let init = listed.drop_last();
        assert forall|i: int| 0 <= i < init.len() implies valid_header_value(
            encode_utf8((#[trigger] init[i]).1@),
        ) by {
            assert(init[i] == listed[i]);
        }
        lemma_cookie_text_valid(init);
        let last = listed[listed.len() - 1];
        assert(valid_header_value(encode_utf8(last.1@)));
        reveal_strlit("; ");
        vstd::utf8::is_ascii_chars_encode_utf8("; "@);
        let front = cookie_text(init);
        lemma_encode_concat(front, "; "@);
        lemma_encode_concat(front + "; "@, last.1@);
        let a = encode_utf8(front);
        let b = encode_utf8("; "@);
        let c = encode_utf8(last.1@);
        let whole = a + b + c;
        assert forall|i: int| 0 <= i < whole.len() implies ((#[trigger] whole[i]) >= 32 && whole[i]
            != 127) || whole[i] == 9 by {
            if i < a.len() {
                assert(whole[i] == a[i]);
            } else if i < a.len() + b.len() {
                assert(whole[i] == b[i - a.len()]);
            } else {
                assert(whole[i] == c[i - a.len() - b.len()]);
            }
        }
    }
}

/// Whether each cookie can stand in a header field.
pub open spec fn all_header_values(cookies: Map<Seq<char>, Seq<char>>) -> bool {
    forall|name: Seq<char>| #[trigger]
        cookies.contains_key(name) ==> valid_header_value(encode_utf8(cookies[name]))
}

/// Cookies are attached wherever they can be: where the target names a peer, the
/// head is roomy and each cookie of the peer is a header value.
pub proof fn law_valid_cookies_are_attached(
    jar: Map<Seq<u8>, Map<Seq<char>, Seq<char>>>,
    before: HeadView,
    after: HeadView,
    peer: Result<PeerId, Error>,
)
    requires
        attaches(jar, before, after, peer),
        before.uri.authority is Some,
        parsed_endpoint_id(before.uri.authority->0) is Ok,
        roomy(before.headers),
        all_header_values(cookies_of(jar, parsed_endpoint_id(before.uri.authority->0)->Ok_0)),
    ensures
        peer is Ok,
{
    let cookies = cookies_of(jar, parsed_endpoint_id(before.uri.authority->0)->Ok_0);
    if cookies != Map::<Seq<char>, Seq<char>>::empty() {
        assert(sets_some_order(cookies, before, after, without_value(peer)));
        let listed = choose|listed: Seq<(String, String)>|
            #[trigger] lists(listed, cookies) && sets_cookie_field(
                before,
                cookie_text(listed),
                after,
                without_value(peer),
            );
        assert forall|i: int| 0 <= i < listed.len() implies valid_header_value(
            encode_utf8((#[trigger] listed[i]).1@),
        ) by {
            assert(cookies.contains_pair(listed[i].0@, listed[i].1@));
            assert(cookies.contains_key(listed[i].0@));
        }
        lemma_cookie_text_valid(listed);
    }
}

/// The `Cookie` field is set to the given text as it is, and is then the only one;
/// where it is refused, nothing changes. It is refused exactly where the text is no
/// header value, as long as the head is roomy.
pub proof fn law_cookie_field_is_the_text(
    before: HeadView,
    text: Seq<char>,
    after: HeadView,
    set: Result<(), Error>,
)
    requires
        sets_cookie_field(before, text, after, set),
    ensures
        set is Ok ==> after.headers.contains_key("cookie"@) && after.headers["cookie"@]
            == seq![encode_utf8(text)],
        set is Err ==> after == before,
        set is Ok ==> valid_header_value(encode_utf8(text)),
        roomy(before.headers) && valid_header_value(encode_utf8(text)) ==> set is Ok,
{
}

} // verus!
