//! Text helpers: decoding bytes, comparing and formatting.

use vstd::prelude::*;
use vstd::utf8::{decode_utf8, encode_utf8, valid_utf8};

verus! {

/// The text that `String::from_utf8_lossy` makes of bytes that are not UTF-8.
pub uninterp spec fn repaired_text(bytes: Seq<u8>) -> Seq<char>;

/// Calls `String::from_utf8_lossy`. Trusted: bytes that are valid UTF-8 come
/// back as what they encode, and the text of other bytes is a function of them
/// alone. Where U+FFFD stands in for ill-formed bytes is not stated.
#[verifier::external_body]
pub(crate) fn utf8_lossy(bytes: &[u8]) -> (text: String)
    ensures
        valid_utf8(bytes@) ==> text@ == decode_utf8(bytes@),
        !valid_utf8(bytes@) ==> text@ == repaired_text(bytes@),
{
    String::from_utf8_lossy(bytes).to_string()
}

/// The text of `bytes`: what they encode where they are valid UTF-8, else their
/// repaired text.
pub open spec fn lossy_text(bytes: Seq<u8>) -> Seq<char> {
    if valid_utf8(bytes) {
        decode_utf8(bytes)
    } else {
        repaired_text(bytes)
    }
}

/// Declares the error that reports where a byte sequence stops being UTF-8.
#[verifier::external_type_specification]
#[verifier::external_body]
pub struct ExUtf8Error(std::str::Utf8Error);

/// The error of `String::from_utf8` on bytes that are not UTF-8.
pub uninterp spec fn utf8_failure(bytes: Seq<u8>) -> std::str::Utf8Error;

/// Calls `String::from_utf8`, and `FromUtf8Error::utf8_error` on what that fails
/// with. Trusted: it succeeds on valid UTF-8 and on nothing else, and the text is
/// what the bytes encode; the error is a function of the bytes alone.
#[verifier::external_body]
pub(crate) fn utf8_strict(bytes: Vec<u8>) -> (text: Result<String, std::str::Utf8Error>)
    ensures
        text is Ok <==> valid_utf8(bytes@),
        text matches Ok(decoded) ==> decoded@ == decode_utf8(bytes@),
        text matches Err(error) ==> error == utf8_failure(bytes@),
{
    String::from_utf8(bytes).map_err(|err| err.utf8_error())
}

/// The text of an optional string.
pub open spec fn optional_text(text: Option<String>) -> Option<Seq<char>> {
    match text {
        Some(text) => Some(text@),
        None => None,
    }
}

/// The characters of `text`.
pub(crate) fn chars_of(text: &str) -> (chars: Vec<char>)
    ensures
        chars@ == text@,
{
    let mut chars: Vec<char> = Vec::new();
    for c in it: text.chars()
        invariant
            it.seq() == text@,
            chars@ == text@.take(it.index()),
    {
        chars.push(c);
        assert(chars@ =~= text@.take(it.index() + 1));
    }
    assert(text@.take(text@.len() as int) =~= text@);
    chars
}

/// Tells whether two texts are the same.
pub(crate) fn same_text(left: &str, right: &str) -> (same: bool)
    ensures
        same == (left@ == right@),
{
    left.to_owned() == right.to_owned()
}

/// The decimal digit `d`.
pub open spec fn digit_char(d: nat) -> char {
    (('0' as u32) + d) as char
}

/// `n` in decimal, without leading zeros.
pub open spec fn decimal(n: nat) -> Seq<char>
    decreases n,
{
    if n < 10 {
        seq![digit_char(n)]
    } else {
        decimal(n / 10).push(digit_char(n % 10))
    }
}

/// The one-character text of the digit `d`.
fn digit_text(d: usize) -> (text: &'static str)
    requires
        d < 10,
    ensures
        text@ == seq![digit_char(d as nat)],
{
    proof {
        reveal_strlit("0");
        reveal_strlit("1");
        reveal_strlit("2");
        reveal_strlit("3");
        reveal_strlit("4");
        reveal_strlit("5");
        reveal_strlit("6");
        reveal_strlit("7");
        reveal_strlit("8");
        reveal_strlit("9");
    }
    match d {
        0 => "0",
        1 => "1",
        2 => "2",
        3 => "3",
        4 => "4",
        5 => "5",
        6 => "6",
        7 => "7",
        8 => "8",
        _ => "9",
    }
}

/// Formats `n` in decimal.
pub fn decimal_text(n: usize) -> (text: String)
    ensures
        text@ == decimal(n as nat),
    decreases n,
{
    let mut text = if n < 10 {
        String::new()
    } else {
        decimal_text(n / 10)
    };
    text.append(digit_text(n % 10));
    assert(text@ =~= decimal(n as nat));
    text
}

/// The bytes that `HeaderValue::to_str` of the `http` crate takes for text:
/// visible ASCII, the space and the tab.
pub open spec fn is_visible_ascii(byte: u8) -> bool {
    (32 <= byte && byte < 127) || byte == 9
}

/// Whether every byte is visible ASCII.
pub open spec fn all_visible_ascii(bytes: Seq<u8>) -> bool {
    forall|i: int| 0 <= i < bytes.len() ==> is_visible_ascii(#[trigger] bytes[i])
}

/// The bytes read as ASCII characters.
pub open spec fn ascii_chars(bytes: Seq<u8>) -> Seq<char> {
    bytes.map_values(|byte: u8| byte as char)
}

/// ASCII bytes are valid UTF-8 and encode the characters that they stand for.
pub proof fn lemma_ascii_decodes(bytes: Seq<u8>)
    requires
        all_visible_ascii(bytes),
    ensures
        valid_utf8(bytes),
        decode_utf8(bytes) == ascii_chars(bytes),
        encode_utf8(ascii_chars(bytes)) == bytes,
{
    let chars = ascii_chars(bytes);
    assert forall|i: int| 0 <= i < chars.len() implies (#[trigger] chars[i]) as u32 == bytes[i] as u32 by {
        assert(is_visible_ascii(bytes[i]));
    }
    assert(vstd::utf8::is_ascii_chars(chars)) by {
        assert forall|i: int| 0 <= i < chars.len() implies '\0' <= #[trigger] chars[i] <= '\u{7f}' by {
            assert(is_visible_ascii(bytes[i]));
            assert(chars[i] as u32 == bytes[i] as u32);
        }
    }
    vstd::utf8::is_ascii_chars_encode_utf8(chars);
    assert(encode_utf8(chars) =~= bytes);
    vstd::utf8::encode_utf8_valid_utf8(chars);
    vstd::utf8::encode_utf8_decode_utf8(chars);
}

/// The text of a header value, or `None` where it holds a byte that is not
/// visible ASCII.
pub fn visible_text(bytes: Vec<u8>) -> (text: Option<String>)
    ensures
        text is Some <==> all_visible_ascii(bytes@),
        text matches Some(read) ==> read@ == ascii_chars(bytes@),
{
    let mut i: usize = 0;
    while i < bytes.len()
        invariant
            i <= bytes@.len(),
            forall|j: int| 0 <= j < i ==> is_visible_ascii(#[trigger] bytes@[j]),
        decreases bytes@.len() - i,
    {
        let byte: u8 = bytes[i];
        if !((32 <= byte && byte < 127) || byte == 9) {
            assert(!is_visible_ascii(bytes@[i as int]));
            return None;
        }
        i = i + 1;
    }
    proof {
        lemma_ascii_decodes(bytes@);
    }
    match utf8_strict(bytes) {
        Ok(text) => Some(text),
        Err(_) => None,
    }
}

/// The number that some decimal digits stand for.
pub open spec fn number_of(digits: Seq<char>) -> int
    decreases digits.len(),
{
    if digits.len() == 0 {
        0
    } else {
        10 * number_of(digits.drop_last()) + (digits.last() as u32 - 48)
    }
}

/// A number is written with digits alone, which stand for it, and without leading
/// zeros.
pub proof fn law_decimal_read_back(n: nat)
    ensures
        number_of(decimal(n)) == n,
        forall|i: int| 0 <= i < decimal(n).len() ==> '0' <= (#[trigger] decimal(n)[i]) <= '9',
        decimal(n).len() > 0,
        n > 0 ==> decimal(n)[0] != '0',
    decreases n,
{
    assert(forall|d: nat| d < 10 ==> (#[trigger] digit_char(d)) as u32 == 48 + d);
    let digits = decimal(n);
    if n < 10 {
        assert(digits.drop_last() =~= Seq::<char>::empty());
        assert(number_of(digits.drop_last()) == 0);
        assert(digits.last() == digit_char(n));
    } else {
        law_decimal_read_back(n / 10);
        assert(digits.drop_last() =~= decimal(n / 10));
        assert(digits.last() == digit_char(n % 10));
        assert(digits[0] == decimal(n / 10)[0]);
    }
}

/// Bytes are text exactly where all are tabs or stand from the space to the tilde,
/// and then each is the character with its number.
pub proof fn law_visible_bytes_are_their_characters(bytes: Seq<u8>)
    ensures
        all_visible_ascii(bytes) <==> (forall|i: int|
            0 <= i < bytes.len() ==> (#[trigger] bytes[i]) == 9 || 32 <= bytes[i] <= 126),
        ascii_chars(bytes).len() == bytes.len(),
        all_visible_ascii(bytes) ==> (forall|i: int|
            0 <= i < bytes.len() ==> (#[trigger] ascii_chars(bytes)[i]) as u32 == bytes[i]),
{
    if forall|i: int|
        0 <= i < bytes.len() ==> (#[trigger] bytes[i]) == 9 || 32 <= bytes[i] <= 126 {
        assert forall|i: int| 0 <= i < bytes.len() implies is_visible_ascii(#[trigger] bytes[i]) by {}
    }
    if all_visible_ascii(bytes) {
        assert forall|i: int| 0 <= i < bytes.len() implies (#[trigger] ascii_chars(bytes)[i]) as u32
            == bytes[i] by {
            assert(is_visible_ascii(bytes[i]));
        }
        assert forall|i: int| 0 <= i < bytes.len() implies (#[trigger] bytes[i]) == 9 || 32
            <= bytes[i] <= 126 by {
            assert(is_visible_ascii(bytes[i]));
        }
    }
}

} // verus!
