//! Header fields.
//!
//! The fields of a request or response are held in the `HeaderMap` of the `http`
//! crate. [`header_entries`] names what such a map holds, and the functions here
//! are the operations on it that the rest of the library calls.

use http::{Error as HttpError, HeaderMap, HeaderName, HeaderValue};
use vstd::prelude::*;

verus! {

/// Declares the header map of the `http` crate.
#[verifier::external_type_specification]
#[verifier::external_body]
#[verifier::reject_recursive_types(T)]
pub struct ExHeaderMap<T>(HeaderMap<T>);

/// Declares the header value of the `http` crate.
#[verifier::external_type_specification]
#[verifier::external_body]
pub struct ExHeaderValue(HeaderValue);

/// What a header map holds: for each lower-case name, its values in the order in
/// which they were added.
pub uninterp spec fn header_entries(headers: HeaderMap<HeaderValue>) -> Map<Seq<char>, Seq<Seq<u8>>>;

/// The contents of a map without fields.
pub open spec fn no_headers() -> Map<Seq<char>, Seq<Seq<u8>>> {
    Map::empty()
}

/// The field that holds cookies in a request.
pub const COOKIE: &'static str = "cookie";

/// The field that sets a cookie in a response.
pub const SET_COOKIE: &'static str = "set-cookie";

/// The field that holds the target of a redirect.
pub const LOCATION: &'static str = "location";

/// The field that holds the length of a body.
pub const CONTENT_LENGTH: &'static str = "content-length";

/// The field that holds the media type of a body.
pub const CONTENT_TYPE: &'static str = "content-type";

/// The characters of a header name.
pub open spec fn is_token_char(c: char) -> bool {
    ||| 'a' <= c <= 'z'
    ||| 'A' <= c <= 'Z'
    ||| '0' <= c <= '9'
    ||| c == '!' || c == '#' || c == '$' || c == '%' || c == '&' || c == '\'' || c == '*'
    ||| c == '+' || c == '-' || c == '.' || c == '^' || c == '_' || c == '`' || c == '|' || c == '~'
}

/// Whether `name` can name a header field.
pub open spec fn valid_header_name(name: Seq<char>) -> bool {
    &&& 0 < name.len() <= 0xffff
    &&& forall|i: int| 0 <= i < name.len() ==> is_token_char(#[trigger] name[i])
}

/// Whether `value` can be the value of a header field.
pub open spec fn valid_header_value(value: Seq<u8>) -> bool {
    forall|i: int| 0 <= i < value.len() ==> ((#[trigger] value[i]) >= 32 && value[i] != 127) || value[i] == 9
}

/// `c` in lower case, where it is an ASCII letter.
pub open spec fn ascii_lower(c: char) -> char {
    if 'A' <= c <= 'Z' {
        ((c as u32) + 32) as char
    } else {
        c
    }
}

/// The key under which a header name is held: names differ in more than case.
pub open spec fn header_key(name: Seq<char>) -> Seq<char> {
    name.map_values(|c: char| ascii_lower(c))
}

/// How many names a map may hold so that adding to it succeeds whatever the
/// names are.
pub open spec fn roomy(entries: Map<Seq<char>, Seq<Seq<u8>>>) -> bool {
    entries.dom().finite() && entries.dom().len() <= 6553
}

/// The values of the field `key`, in order.
pub open spec fn values_of(
    entries: Map<Seq<char>, Seq<Seq<u8>>>,
    key: Seq<char>,
) -> Seq<Seq<u8>> {
    if entries.contains_key(key) {
        entries[key]
    } else {
        Seq::empty()
    }
}

/// The contents of some byte vectors.
pub open spec fn byte_seqs(vectors: Seq<Vec<u8>>) -> Seq<Seq<u8>> {
    vectors.map_values(|bytes: Vec<u8>| bytes@)
}

/// Calls `HeaderMap::new`. Trusted: the map holds nothing.
#[verifier::external_body]
pub(crate) fn new_headers() -> (headers: HeaderMap<HeaderValue>)
    ensures
        header_entries(headers) == no_headers(),
{
    HeaderMap::new()
}

/// Clones a `HeaderMap`. Trusted: the copy holds the same fields.
#[verifier::external_body]
pub(crate) fn copy_headers(headers: &HeaderMap<HeaderValue>) -> (copy: HeaderMap<HeaderValue>)
    ensures
        header_entries(copy) == header_entries(*headers),
{
    headers.clone()
}

/// Calls `HeaderMap::get`. Trusted: it gives the first value of the field, and
/// none where the field is absent.
#[verifier::external_body]
pub(crate) fn first_value(headers: &HeaderMap<HeaderValue>, name: &str) -> (value: Option<Vec<u8>>)
    ensures
        value is Some <==> header_entries(*headers).contains_key(header_key(name@)),
        value matches Some(bytes) ==> ({
            let values = header_entries(*headers)[header_key(name@)];
            values.len() > 0 && bytes@ == values[0]
        }),
{
    headers.get(name).map(|value| value.as_bytes().to_vec())
}

/// Calls `HeaderMap::get_all`. Trusted: it gives the values of the field in the
/// order in which they were added.
#[verifier::external_body]
pub(crate) fn every_value(headers: &HeaderMap<HeaderValue>, name: &str) -> (values: Vec<Vec<u8>>)
    ensures
        byte_seqs(values@) == values_of(header_entries(*headers), header_key(name@)),
{
    headers.get_all(name).iter().map(|value| value.as_bytes().to_vec()).collect()
}

/// Calls `HeaderMap::remove`. Trusted: all values of the field go, and no other
/// field changes.
#[verifier::external_body]
pub(crate) fn remove_header(headers: &mut HeaderMap<HeaderValue>, name: &str)
    ensures
        header_entries(*final(headers)) == header_entries(*old(headers)).remove(header_key(name@)),
{
    headers.remove(name);
}

/// The error of `HeaderMap::try_insert` where it refuses a field with this name and
/// value, or of reading the name or the value in front of it.
pub uninterp spec fn insert_failure(name: Seq<char>, value: Seq<u8>) -> HttpError;

/// The error of `HeaderMap::try_append` where it refuses a field with this name and
/// value, or of reading the name or the value in front of it.
pub uninterp spec fn append_failure(name: Seq<char>, value: Seq<u8>) -> HttpError;

/// Calls `HeaderMap::try_insert` with `HeaderName::from_bytes` of the name and
/// `HeaderValue::from_bytes` of the value. Trusted: on success both were valid
/// and the field has this one value; on failure the map holds what it held. It
/// succeeds on a valid name and value while the map is roomy. Whether a fuller
/// map takes the field depends on how its names hash and is not stated. There is
/// one error for names, one for values and one for full maps, so that the error is
/// a function of the name and the value alone.
#[verifier::external_body]
pub(crate) fn insert_header(
    headers: &mut HeaderMap<HeaderValue>,
    name: &str,
    value: &[u8],
) -> (inserted: Result<(), HttpError>)
    ensures
        inserted is Ok ==> valid_header_name(name@) && valid_header_value(value@),
        inserted is Ok ==> header_entries(*final(headers)) == header_entries(*old(headers)).insert(
            header_key(name@),
            seq![value@],
        ),
        inserted matches Err(error) ==> error == insert_failure(name@, value@),
        inserted is Err ==> header_entries(*final(headers)) == header_entries(*old(headers)),
        valid_header_name(name@) && valid_header_value(value@) && roomy(
            header_entries(*old(headers)),
        ) ==> inserted is Ok,
{
    let name = HeaderName::from_bytes(name.as_bytes())?;
    let value = HeaderValue::from_bytes(value)?;
    headers.try_insert(name, value)?;
    Ok(())
}

/// Calls `HeaderMap::try_append` with `HeaderName::from_bytes` of the name and
/// `HeaderValue::from_bytes` of the value. Trusted: on success both were valid
/// and the value stands behind those that the field had; on failure the map
/// holds what it held. It succeeds on a valid name and value while the map is
/// roomy. Whether a fuller map takes the value depends on how its names hash and
/// is not stated. There is one error for names, one for values and one for full
/// maps, so that the error is a function of the name and the value alone.
#[verifier::external_body]
pub(crate) fn append_header(
    headers: &mut HeaderMap<HeaderValue>,
    name: &str,
    value: &[u8],
) -> (appended: Result<(), HttpError>)
    ensures
        appended is Ok ==> valid_header_name(name@) && valid_header_value(value@),
        appended is Ok ==> header_entries(*final(headers)) == header_entries(*old(headers)).insert(
            header_key(name@),
            values_of(header_entries(*old(headers)), header_key(name@)).push(value@),
        ),
        appended matches Err(error) ==> error == append_failure(name@, value@),
        appended is Err ==> header_entries(*final(headers)) == header_entries(*old(headers)),
        valid_header_name(name@) && valid_header_value(value@) && roomy(
            header_entries(*old(headers)),
        ) ==> appended is Ok,
{
    let name = HeaderName::from_bytes(name.as_bytes())?;
    let value = HeaderValue::from_bytes(value)?;
    headers.try_append(name, value)?;
    Ok(())
}

/// The fields that the library itself speaks of have valid names, and each is
/// its own key.
pub proof fn lemma_known_names()
    ensures
        valid_header_name(COOKIE@) && header_key(COOKIE@) == COOKIE@,
        valid_header_name(SET_COOKIE@) && header_key(SET_COOKIE@) == SET_COOKIE@,
        valid_header_name(LOCATION@) && header_key(LOCATION@) == LOCATION@,
        valid_header_name(CONTENT_LENGTH@) && header_key(CONTENT_LENGTH@) == CONTENT_LENGTH@,
        valid_header_name(CONTENT_TYPE@) && header_key(CONTENT_TYPE@) == CONTENT_TYPE@,
        CONTENT_LENGTH@ != CONTENT_TYPE@,
{
    reveal_strlit("cookie");
    reveal_strlit("set-cookie");
    reveal_strlit("location");
    reveal_strlit("content-length");
    reveal_strlit("content-type");
    assert(header_key(COOKIE@) =~= COOKIE@);
    assert(header_key(SET_COOKIE@) =~= SET_COOKIE@);
    assert(header_key(LOCATION@) =~= LOCATION@);
    assert(header_key(CONTENT_LENGTH@) =~= CONTENT_LENGTH@);
    assert(header_key(CONTENT_TYPE@) =~= CONTENT_TYPE@);
    assert(CONTENT_LENGTH@.len() != CONTENT_TYPE@.len());
}

} // verus!
