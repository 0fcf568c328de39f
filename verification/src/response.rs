//! Responses and how their bodies are read.
//!
//! A [`Response`] performs no I/O: whoever drives it reads from the stream of the
//! request and hands over what came, one [`Received`] at a time.

use h3::error::StreamError;
use http::{HeaderMap, HeaderValue};
use vstd::prelude::*;
use vstd::utf8::{decode_utf8, encode_utf8, encode_utf8_decode_utf8, encode_utf8_valid_utf8, valid_utf8};

use crate::error::Error;
use crate::headers::{first_value, header_entries, lemma_known_names, CONTENT_TYPE};
use crate::request::{is_built_as, HeadView, Request, Version, MIME_JSON};
use crate::response::sse_laws::all_bytes;
use crate::text::{utf8_failure, utf8_strict};

pub mod sse;
pub mod sse_laws;

verus! {

// ---------------------------------------------------------------------------
// Reading a body
// ---------------------------------------------------------------------------

/// Whether a stream error reports a close without an error, by its code.
pub uninterp spec fn is_no_error(error: StreamError) -> bool;

/// Calls `StreamError::is_h3_no_error`. Trusted: the answer is a function of the
/// error alone. That it is yes for the code `H3_NO_ERROR`, of the stream or of its
/// connection, and no for the rest, is not stated: the error is opaque here.
#[verifier::external_body]
fn no_error(error: &StreamError) -> (graceful: bool)
    ensures
        graceful == is_no_error(*error),
{
    error.is_h3_no_error()
}

/// What came when the stream of a request was read.
pub enum Received {
    /// A frame of data.
    Data(Vec<u8>),
    /// The end of the stream.
    End,
    /// An error of the stream.
    Failed(StreamError),
}

/// Whether `read` is an error that stands for a graceful close.
pub open spec fn closes(read: Received) -> bool {
    match read {
        Received::Failed(error) => is_no_error(error),
        _ => false,
    }
}

/// The part of a body that a read gives, none where the body has ended. `graceful`
/// says whether an error is a graceful close.
pub open spec fn chunk(read: Received, graceful: bool) -> Option<Result<Vec<u8>, Error>> {
    match read {
        Received::Data(data) => Some(Ok(data)),
        Received::End => None,
        Received::Failed(error) => if graceful {
            None
        } else {
            Some(Err(Error::Stream(error)))
        },
    }
}

/// What reading a body that begins with `buf` gives: the whole of it or an error,
/// none while it goes on.
pub open spec fn read_body(buf: Seq<u8>, reads: Seq<Received>) -> Option<Result<Seq<u8>, Error>>
    decreases reads.len(),
{
    if reads.len() == 0 {
        None
    } else {
        match chunk(reads[0], closes(reads[0])) {
            Some(Ok(data)) => read_body(buf + data@, reads.skip(1)),
            Some(Err(error)) => Some(Err(error)),
            None => Some(Ok(buf)),
        }
    }
}

/// The items of the stream of a body, up to its end.
pub open spec fn stream_items(reads: Seq<Received>) -> Seq<Result<Vec<u8>, Error>>
    decreases reads.len(),
{
    if reads.len() == 0 {
        Seq::empty()
    } else {
        match chunk(reads[0], closes(reads[0])) {
            Some(item) => seq![item] + stream_items(reads.skip(1)),
            None => Seq::empty(),
        }
    }
}

/// Turns a read into an item of the stream of a body.
pub fn stream_item(read: Received, graceful: bool) -> (item: Option<Result<Vec<u8>, Error>>)
    ensures
        item == chunk(read, graceful),
{
    match read {
        Received::Data(data) => Some(Ok(data)),
        Received::End => None,
        Received::Failed(error) => if graceful {
            None
        } else {
            Some(Err(Error::Stream(error)))
        },
    }
}

// ---------------------------------------------------------------------------
// The media type of a body
// ---------------------------------------------------------------------------

/// The part of a media type in front of its parameters.
pub open spec fn without_parameters(value: Seq<u8>) -> Seq<u8> {
    if value.contains(';' as u8) {
        value.take(value.index_of_first(';' as u8).unwrap())
    } else {
        value
    }
}

/// Whether a byte is whitespace within a header value.
pub open spec fn is_blank(byte: u8) -> bool {
    byte == 32 || byte == 9
}

/// `value` without the whitespace around it.
pub open spec fn trimmed(value: Seq<u8>) -> Seq<u8>
    decreases value.len(),
{
    if value.len() > 0 && is_blank(value[0]) {
        trimmed(value.skip(1))
    } else if value.len() > 0 && is_blank(value.last()) {
        trimmed(value.drop_last())
    } else {
        value
    }
}

/// `byte` in lower case, where it is an ASCII letter.
pub open spec fn lower_byte(byte: u8) -> u8 {
    if 65 <= byte <= 90 {
        (byte + 32) as u8
    } else {
        byte
    }
}

/// Whether a `Content-Type` says that a body is JSON.
pub open spec fn is_json_type(value: Seq<u8>) -> bool {
    trimmed(without_parameters(value)).map_values(|byte: u8| lower_byte(byte)) == encode_utf8(
        MIME_JSON@,
    )
}

/// Whether the fields of a response say that its body is JSON.
pub open spec fn declares_json(entries: Map<Seq<char>, Seq<Seq<u8>>>) -> bool {
    entries.contains_key(CONTENT_TYPE@) && is_json_type(entries[CONTENT_TYPE@][0])
}

/// Finds where the parameters of a media type start.
fn parameters_start(value: &Vec<u8>) -> (end: usize)
    ensures
        end <= value@.len(),
        value@.take(end as int) == without_parameters(value@),
{
    let mut end: usize = 0;
    while end < value.len() && value[end] != 59
        invariant
            end <= value@.len(),
            forall|i: int| 0 <= i < end ==> (#[trigger] value@[i]) != ';' as u8,
        decreases value@.len() - end,
    {
        end += 1;
    }
    proof {
        if end < value@.len() {
            assert(value@[end as int] == ';' as u8);
            assert(value@.contains(';' as u8));
            value@.index_of_first_ensures(';' as u8);
            let first = value@.index_of_first(';' as u8).unwrap();
            assert(value@[first] == ';' as u8);
        } else {
            assert(value@.take(end as int) =~= value@);
        }
    }
    end
}

/// Says whether a `Content-Type` says that a body is JSON.
pub fn json_type(value: &Vec<u8>) -> (json: bool)
    ensures
        json == is_json_type(value@),
{
    let expected = MIME_JSON.as_bytes();
    let mut start: usize = 0;
    let mut end: usize = parameters_start(value);
    proof {
        assert(value@.subrange(0, end as int) =~= value@.take(end as int));
    }
    loop
        invariant_except_break
            start <= end <= value@.len(),
            trimmed(value@.subrange(start as int, end as int)) == trimmed(without_parameters(value@)),
        ensures
            start <= end <= value@.len(),
            value@.subrange(start as int, end as int) == trimmed(without_parameters(value@)),
        decreases end - start,
    {
        let ghost rest = value@.subrange(start as int, end as int);
        if start < end && (value[start] == 32 || value[start] == 9) {
            proof {
                assert(rest.skip(1) =~= value@.subrange(start + 1, end as int));
            }
            start += 1;
        } else if start < end && (value[end - 1] == 32 || value[end - 1] == 9) {
            proof {
                assert(rest.drop_last() =~= value@.subrange(start as int, end - 1));
            }
            end -= 1;
        } else {
            break ;
        }
    }
    let ghost found = value@.subrange(start as int, end as int);
    let ghost lowered = found.map_values(|byte: u8| lower_byte(byte));
    if end - start != expected.len() {
        assert(lowered.len() != expected@.len());
        return false;
    }
    let mut i: usize = 0;
    while i < expected.len()
        invariant
            i <= expected@.len(),
            end - start == expected@.len(),
            end <= value@.len(),
            found == value@.subrange(start as int, end as int),
            lowered == found.map_values(|byte: u8| lower_byte(byte)),
            forall|j: int| 0 <= j < i ==> lowered[j] == #[trigger] expected@[j],
            found == trimmed(without_parameters(value@)),
            expected@ == encode_utf8(MIME_JSON@),
        decreases expected@.len() - i,
    {
        let byte: u8 = value[start + i];
        let lower: u8 = if 65 <= byte && byte <= 90 {
            byte + 32
        } else {
            byte
        };
        assert(lowered[i as int] == lower);
        if lower != expected[i] {
            return false;
        }
        i += 1;
    }
    assert(lowered =~= expected@);
    true
}

// ---------------------------------------------------------------------------
// Responses
// ---------------------------------------------------------------------------

/// The message for a body that is to be read as JSON and is not declared as that.
pub const NOT_JSON: &'static str = "the content type is not application/json";

/// The head of a response: its status, its version and its header fields.
pub struct Response {
    pub status: u16,
    pub version: Version,
    pub headers: HeaderMap<HeaderValue>,
}

impl Response {
    /// Takes a read into the body that has been read so far, and says whether the
    /// body goes on.
    pub fn bytes(body: &mut Vec<u8>, read: Received) -> (more: Result<bool, Error>)
        ensures
            match chunk(read, closes(read)) {
                Some(Ok(data)) => more == Ok::<bool, Error>(true) && final(body)@ == old(body)@
                    + data@,
                Some(Err(error)) => more == Err::<bool, Error>(error) && final(body)@ == old(body)@,
                None => more == Ok::<bool, Error>(false) && final(body)@ == old(body)@,
            },
    {
        match Self::bytes_stream(read) {
            Some(Ok(mut data)) => {
                body.append(&mut data);
                Ok(true)
            },
            Some(Err(error)) => Err(error),
            None => Ok(false),
        }
    }

    /// Turns a read into an item of the stream of the body; none at its end.
    pub fn bytes_stream(read: Received) -> (item: Option<Result<Vec<u8>, Error>>)
        ensures
            item == chunk(read, closes(read)),
    {
        let graceful = match &read {
            Received::Failed(error) => no_error(error),
            _ => false,
        };
        stream_item(read, graceful)
    }

    /// Turns a body that has been read into text.
    pub fn text(body: Vec<u8>) -> (text: Result<String, Error>)
        ensures
            text is Ok <==> valid_utf8(body@),
            text matches Ok(decoded) ==> decoded@ == decode_utf8(body@),
            text matches Err(error) ==> error == Error::InvalidUtf8(utf8_failure(body@)),
    {
        match utf8_strict(body) {
            Ok(text) => Ok(text),
            Err(error) => Err(Error::InvalidUtf8(error)),
        }
    }

    /// Checks that the response says its body is JSON, as must hold before the body
    /// is read and parsed.
    pub fn json(&self) -> (checked: Result<(), Error>)
        ensures
            checked is Ok <==> declares_json(header_entries(self.headers)),
            checked matches Err(error) ==> (error matches Error::Other(text) && text@ == NOT_JSON@),
    {
        proof {
            lemma_known_names();
        }
        let json = match first_value(&self.headers, CONTENT_TYPE) {
            Some(value) => json_type(&value),
            None => false,
        };
        if json {
            Ok(())
        } else {
            Err(Error::Other(NOT_JSON.to_owned()))
        }
    }
}

// ---------------------------------------------------------------------------
// Laws
// ---------------------------------------------------------------------------

/// Reads that give `chunks`, and then `last`.
pub open spec fn sent(chunks: Seq<Vec<u8>>, last: Received) -> Seq<Received> {
    chunks.map_values(|data: Vec<u8>| Received::Data(data)).push(last)
}

/// The bytes of some chunks in a row.
pub open spec fn joined(chunks: Seq<Vec<u8>>) -> Seq<u8> {
    all_bytes(chunks.map_values(|data: Vec<u8>| data@))
}

/// What reading gives after the data `chunks` and then `last` is decided by the
/// joined chunks and `last`.
proof fn lemma_read_sent(buf: Seq<u8>, chunks: Seq<Vec<u8>>, last: Received)
    requires
        !(last is Data),
    ensures
        read_body(buf, sent(chunks, last)) == (match chunk(last, closes(last)) {
            Some(Err(error)) => Some(Err::<Seq<u8>, Error>(error)),
            _ => Some(Ok::<Seq<u8>, Error>(buf + joined(chunks))),
        }),
    decreases chunks.len(),
{
    let reads = sent(chunks, last);
    let seqs = chunks.map_values(|data: Vec<u8>| data@);
    if chunks.len() == 0 {
        assert(reads[0] == last);
        assert(buf + joined(chunks) =~= buf);
    } else {
        let rest = chunks.skip(1);
        assert(reads[0] == Received::Data(chunks[0]));
        assert(reads.skip(1) =~= sent(rest, last));
        lemma_read_sent(buf + chunks[0]@, rest, last);
        assert(seqs.skip(1) =~= rest.map_values(|data: Vec<u8>| data@));
        assert(seqs[0] == chunks[0]@);
        assert(joined(chunks) == chunks[0]@ + joined(rest));
        assert((buf + chunks[0]@) + joined(rest) =~= buf + joined(chunks));
    }
}

/// A body that ends, by the end of the stream or by a graceful close, is read as
/// all of its data in order, however it was split into frames.
pub proof fn law_body_is_all_data(chunks: Seq<Vec<u8>>, last: Received)
    requires
        last is End || closes(last),
    ensures
        read_body(Seq::empty(), sent(chunks, last)) == Some(Ok::<Seq<u8>, Error>(joined(chunks))),
{
    lemma_read_sent(Seq::empty(), chunks, last);
    assert(Seq::<u8>::empty() + joined(chunks) =~= joined(chunks));
}

/// A body whose stream fails is not read, whatever data came first: the error of
/// the stream is reported.
pub proof fn law_failure_reported(chunks: Seq<Vec<u8>>, error: StreamError)
    requires
        !is_no_error(error),
    ensures
        read_body(Seq::empty(), sent(chunks, Received::Failed(error))) == Some(
            Err::<Seq<u8>, Error>(Error::Stream(error)),
        ),
{
    lemma_read_sent(Seq::empty(), chunks, Received::Failed(error));
}

/// Streaming a body that ends gives its frames one by one, so that what is streamed
/// and what is read at once are the same bytes.
pub proof fn law_stream_gives_frames(chunks: Seq<Vec<u8>>, last: Received)
    requires
        last is End || closes(last),
    ensures
        stream_items(sent(chunks, last)) == chunks.map_values(
            |data: Vec<u8>| Ok::<Vec<u8>, Error>(data),
        ),
    decreases chunks.len(),
{
    let reads = sent(chunks, last);
    let items = chunks.map_values(|data: Vec<u8>| Ok::<Vec<u8>, Error>(data));
    if chunks.len() == 0 {
        assert(reads[0] == last);
        assert(items =~= Seq::empty());
    } else {
        let rest = chunks.skip(1);
        assert(reads[0] == Received::Data(chunks[0]));
        assert(reads.skip(1) =~= sent(rest, last));
        law_stream_gives_frames(rest, last);
        assert(items =~= seq![Ok::<Vec<u8>, Error>(chunks[0])] + rest.map_values(
            |data: Vec<u8>| Ok::<Vec<u8>, Error>(data),
        ));
    }
}

/// Streaming a body that fails gives the frames that came before, and then the
/// error.
pub proof fn law_failing_stream_gives_frames_and_error(chunks: Seq<Vec<u8>>, error: StreamError)
    requires
        !is_no_error(error),
    ensures
        stream_items(sent(chunks, Received::Failed(error))) == chunks.map_values(
            |data: Vec<u8>| Ok::<Vec<u8>, Error>(data),
        ).push(Err(Error::Stream(error))),
    decreases chunks.len(),
{
    let last = Received::Failed(error);
    let failure = Err::<Vec<u8>, Error>(Error::Stream(error));
    let reads = sent(chunks, last);
    let items = chunks.map_values(|data: Vec<u8>| Ok::<Vec<u8>, Error>(data)).push(failure);
    if chunks.len() == 0 {
        assert(reads[0] == last);
        assert(stream_items(reads.skip(1)) =~= Seq::empty());
        assert(items =~= seq![failure] + Seq::<Result<Vec<u8>, Error>>::empty());
    } else {
        let rest = chunks.skip(1);
        assert(reads[0] == Received::Data(chunks[0]));
        assert(reads.skip(1) =~= sent(rest, last));
        law_failing_stream_gives_frames_and_error(rest, error);
        assert(items =~= seq![Ok::<Vec<u8>, Error>(chunks[0])] + rest.map_values(
            |data: Vec<u8>| Ok::<Vec<u8>, Error>(data),
        ).push(failure));
    }
}

/// A text that is sent as UTF-8 is read back, however it was split into frames.
pub proof fn law_text_read_back(chunks: Seq<Vec<u8>>, last: Received, text: Seq<char>)
    requires
        joined(chunks) == encode_utf8(text),
        last is End || closes(last),
    ensures
        read_body(Seq::empty(), sent(chunks, last)) matches Some(Ok(body)) && valid_utf8(body)
            && decode_utf8(body) == text,
{
    law_body_is_all_data(chunks, last);
    encode_utf8_valid_utf8(text);
    encode_utf8_decode_utf8(text);
}

/// What a request is built with as JSON, where its fields name no other type, is
/// declared as JSON to whoever receives those fields.
pub proof fn law_json_body_declared(state: HeadView, json: Seq<u8>, built: Result<Request, Error>)
    requires
        !state.headers.contains_key(CONTENT_TYPE@),
        is_built_as(built, Ok(state), MIME_JSON@, json),
        built is Ok,
    ensures
        declares_json(built->Ok_0.head@.headers),
{
    lemma_known_names();
    reveal_strlit("application/json");
    vstd::utf8::is_ascii_chars_encode_utf8(MIME_JSON@);
    let value = encode_utf8(MIME_JSON@);
    assert(forall|i: int| 0 <= i < value.len() ==> (#[trigger] value[i]) == MIME_JSON@[i] as u8);
    assert(!value.contains(';' as u8));
    assert(value.map_values(|byte: u8| lower_byte(byte)) =~= value);
}

/// Whether a type is JSON does not depend on its parameters.
pub proof fn law_parameters_ignored(value: Seq<u8>, parameters: Seq<u8>)
    ensures
        is_json_type(value.push(';' as u8) + parameters) == is_json_type(value),
{
    let semicolon = ';' as u8;
    let whole = value.push(semicolon) + parameters;
    assert(whole[value.len() as int] == semicolon);
    assert(whole.contains(semicolon));
    whole.index_of_first_ensures(semicolon);
    let first = whole.index_of_first(semicolon).unwrap();
    if value.contains(semicolon) {
        value.index_of_first_ensures(semicolon);
        let inner = value.index_of_first(semicolon).unwrap();
        assert(whole[inner] == semicolon);
        assert(value[inner] == semicolon);
        assert(first == inner);
        assert(whole.take(first) =~= value.take(inner));
    } else {
        assert(forall|i: int| 0 <= i < value.len() ==> whole[i] == #[trigger] value[i]);
        assert(first == value.len()) by {
            if first < value.len() {
                assert(value[first] == whole[first]);
                assert(value.contains(semicolon));
            }
        }
        assert(whole.take(first) =~= value);
    }
}

/// A read of data is that data, whatever it holds; the end of the stream and a
/// graceful close end the body; any other error of the stream is reported as it is.
pub proof fn law_read_gives_its_data(data: Vec<u8>, error: StreamError, graceful: bool)
    ensures
        chunk(Received::Data(data), graceful) == Some(Ok::<Vec<u8>, Error>(data)),
        chunk(Received::End, graceful) is None,
        graceful ==> chunk(Received::Failed(error), graceful) is None,
        !graceful ==> chunk(Received::Failed(error), graceful) == Some(
            Err::<Vec<u8>, Error>(Error::Stream(error)),
        ),
        closes(Received::Failed(error)) == is_no_error(error),
        !closes(Received::Data(data)),
        !closes(Received::End),
{
}

/// Whether two bytes are the same letter in whatever case, or the same byte.
pub open spec fn same_letter(left: u8, right: u8) -> bool {
    ||| left == right
    ||| 65 <= left <= 90 && right == left + 32
    ||| 65 <= right <= 90 && left == right + 32
}

/// Trimming a text that has no whitespace around it changes nothing.
proof fn lemma_trimmed_plain(value: Seq<u8>)
    requires
        value.len() > 0 ==> !is_blank(value[0]) && !is_blank(value.last()),
    ensures
        trimmed(value) == value,
{
}

/// Trimming starts from the end as well as from the start.
proof fn lemma_trimmed_end(value: Seq<u8>, blank: u8)
    requires
        is_blank(blank),
    ensures
        trimmed(value.push(blank)) == trimmed(value),
    decreases value.len(),
{
    let longer = value.push(blank);
    if value.len() == 0 {
        assert(longer.skip(1) =~= value);
    } else if is_blank(value[0]) {
        lemma_trimmed_end(value.skip(1), blank);
        assert(longer.skip(1) =~= value.skip(1).push(blank));
    } else {
        assert(longer.drop_last() =~= value);
    }
}

/// A type without parameters and without whitespace around it is JSON exactly where
/// it is `application/json` in whatever case.
pub proof fn law_json_type_is_application_json(value: Seq<u8>)
    requires
        !value.contains(59u8),
        value.len() > 0 ==> value[0] != 32 && value[0] != 9 && value.last() != 32 && value.last()
            != 9,
    ensures
        is_json_type(value) <==> value.len() == 16 && (forall|i: int|
            0 <= i < 16 ==> same_letter(
                #[trigger] value[i],
                encode_utf8("application/json"@)[i],
            )),
{
    reveal_strlit("application/json");
    vstd::utf8::is_ascii_chars_encode_utf8("application/json"@);
    let json = encode_utf8("application/json"@);
    assert(forall|i: int|
        0 <= i < 16 ==> (#[trigger] json[i]) == "application/json"@[i] as u8);
    assert(forall|i: int| 0 <= i < 16 ==> (97 <= (#[trigger] json[i]) <= 122 || json[i] == 47));
    lemma_trimmed_plain(value);
    let lowered = value.map_values(|byte: u8| lower_byte(byte));
    if is_json_type(value) {
        assert(lowered == json);
        assert forall|i: int| 0 <= i < 16 implies same_letter(#[trigger] value[i], json[i]) by {
            assert(lowered[i] == lower_byte(value[i]));
        }
    }
    if value.len() == 16 && (forall|i: int|
        0 <= i < 16 ==> same_letter(#[trigger] value[i], json[i])) {
        assert forall|i: int| 0 <= i < 16 implies lowered[i] == json[i] by {
            assert(same_letter(value[i], json[i]));
        }
        assert(lowered =~= json);
    }
}

/// Whitespace around a type does not matter.
pub proof fn law_space_around_type_ignored(value: Seq<u8>, blank: u8)
    requires
        blank == 32 || blank == 9,
        !value.contains(59u8),
    ensures
        is_json_type(value.push(blank)) == is_json_type(value),
        is_json_type(seq![blank] + value) == is_json_type(value),
{
    let behind = value.push(blank);
    let front = seq![blank] + value;
    assert forall|i: int| 0 <= i < behind.len() implies #[trigger] behind[i] != 59u8 by {
        if i < value.len() {
            assert(value.contains(value[i]));
        }
    }
    assert forall|i: int| 0 <= i < front.len() implies #[trigger] front[i] != 59u8 by {
        if i > 0 {
            assert(value.contains(value[i - 1]));
        }
    }
    lemma_trimmed_end(value, blank);
    assert(front.skip(1) =~= value);
}

/// A body is declared as JSON exactly where there is a `Content-Type` and its first
/// value is a JSON type.
pub proof fn law_json_declared_by_first_type(entries: Map<Seq<char>, Seq<Seq<u8>>>)
    ensures
        !entries.contains_key("content-type"@) ==> !declares_json(entries),
        entries.contains_key("content-type"@) ==> declares_json(entries) == is_json_type(
            entries["content-type"@][0],
        ),
{
}

} // verus!
