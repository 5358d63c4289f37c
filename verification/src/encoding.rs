//! Bytes as text: hexadecimal and base64.

use vstd::prelude::*;
use vstd::utf8::is_ascii_chars;
use crate::error::BridgeError;
use crate::text::{ascii_codes, ascii_text, is_ascii_bytes, text_bytes, lemma_ascii_round_trip};

verus! {

/// Whether a byte is the code of a hexadecimal digit, of either case.
pub open spec fn is_hex_digit(b: u8) -> bool {
    48 <= b <= 57 || 65 <= b <= 70 || 97 <= b <= 102
}

/// The value of a hexadecimal digit.
pub open spec fn hex_digit_value(b: u8) -> nat {
    if b <= 57 {
        (b - 48) as nat
    } else if b <= 70 {
        (b - 55) as nat
    } else {
        (b - 87) as nat
    }
}

/// The lower-case hexadecimal digit of a value below sixteen.
pub open spec fn hex_digit_code(v: nat) -> u8 {
    if v < 10 {
        (v + 48) as u8
    } else {
        (v + 87) as u8
    }
}

/// Whether the bytes are hexadecimal text: an even number of hexadecimal
/// digits.
pub open spec fn is_hex_bytes(text: Seq<u8>) -> bool {
    text.len() % 2 == 0 && forall|i: int| 0 <= i < text.len() ==> is_hex_digit(#[trigger] text[i])
}

/// The bytes that hexadecimal text writes, two digits for each.
pub open spec fn hex_decoded(text: Seq<u8>) -> Seq<u8> {
    Seq::new(
        text.len() / 2,
        |i: int| (hex_digit_value(text[2 * i]) * 16 + hex_digit_value(text[2 * i + 1])) as u8,
    )
}

/// The lower-case hexadecimal text of bytes.
pub open spec fn hex_encoded(bytes: Seq<u8>) -> Seq<u8> {
    Seq::new(
        2 * bytes.len(),
        |i: int|
            if i % 2 == 0 {
                hex_digit_code((bytes[i / 2] / 16) as nat)
            } else {
                hex_digit_code((bytes[i / 2] % 16) as nat)
            },
    )
}

/// Whether a text is hexadecimal text.
pub open spec fn is_hex_text(text: Seq<char>) -> bool {
    is_ascii_chars(text) && is_hex_bytes(ascii_codes(text))
}

/// The lower-case hexadecimal text of bytes, as characters.
pub open spec fn hex_text(bytes: Seq<u8>) -> Seq<char> {
    ascii_text(hex_encoded(bytes))
}

/// The hexadecimal text of bytes is hexadecimal text that writes them.
pub proof fn lemma_hex_round_trip(bytes: Seq<u8>)
    ensures
        is_ascii_bytes(hex_encoded(bytes)),
        is_hex_bytes(hex_encoded(bytes)),
        hex_decoded(hex_encoded(bytes)) == bytes,
        is_hex_text(hex_text(bytes)),
        hex_decoded(ascii_codes(hex_text(bytes))) == bytes,
{
    let t = hex_encoded(bytes);
    assert forall|i: int| 0 <= i < t.len() implies is_hex_digit(#[trigger] t[i]) && t[i] < 128 by {
        let b = bytes[i / 2];
        assert(b / 16 < 16 && b % 16 < 16);
    }
    assert forall|i: int| 0 <= i < bytes.len() implies hex_decoded(t)[i] == bytes[i] by {
        let b = bytes[i];
        assert((2 * i) / 2 == i && (2 * i + 1) / 2 == i);
        assert((2 * i) % 2 == 0 && (2 * i + 1) % 2 == 1);
        assert(t[2 * i] == hex_digit_code((b / 16) as nat));
        assert(t[2 * i + 1] == hex_digit_code((b % 16) as nat));
        assert(b / 16 < 16 && b % 16 < 16);
        assert((b / 16) * 16 + b % 16 == b);
    }
    assert(hex_decoded(t) =~= bytes);
    lemma_ascii_round_trip(Seq::<char>::empty(), t);
}

/// What `base64::encode` returns for the given bytes: their text in the
/// standard alphabet, padded.
pub uninterp spec fn base64_encoded(bytes: Seq<u8>) -> Seq<char>;

/// What `base64::decode` returns for the given text: the bytes that it
/// writes, or nothing where the call fails.
pub uninterp spec fn base64_decoded(text: Seq<char>) -> Option<Seq<u8>>;

/// `hex::decode` succeeds on an even number of hexadecimal digits of either
/// case, and returns the byte of each pair; on any other input it fails.
#[verifier::external_body]
pub(crate) fn hex_decode(text: &[u8]) -> (r: Option<Vec<u8>>)
    ensures
        r is Some <==> is_hex_bytes(text@),
        r matches Some(b) ==> b@ == hex_decoded(text@),
{
    hex::decode(text).ok()
}

/// `hex::encode` returns two lower-case hexadecimal digits for each byte.
#[verifier::external_body]
pub(crate) fn hex_encode(bytes: &[u8]) -> (r: String)
    ensures
        r@ == hex_text(bytes@),
{
    hex::encode(bytes)
}

/// `base64::encode` returns the padded text of the bytes in the standard
/// alphabet; `base64::decode` reads that text back as the same bytes.
#[verifier::external_body]
pub(crate) fn base64_encode(bytes: &[u8]) -> (r: String)
    ensures
        r@ == base64_encoded(bytes@),
        base64_decoded(r@) == Some(bytes@),
{
    base64::encode(bytes)
}

/// `base64::decode` reads text in the standard alphabet, and fails on text
/// that it does not accept.
#[verifier::external_body]
pub(crate) fn base64_decode(text: &str) -> (r: Option<Vec<u8>>)
    ensures
        r is Some <==> base64_decoded(text@) is Some,
        r matches Some(b) ==> base64_decoded(text@) == Some(b@),
{
    base64::decode(text).ok()
}

/// The bytes of a hexadecimal text, or nothing where the text is not
/// hexadecimal.
pub fn decode_hex(text: &str) -> (r: Option<Vec<u8>>)
    ensures
        r is Some <==> is_hex_text(text@),
        r matches Some(b) ==> b@ == hex_decoded(ascii_codes(text@)),
{
    match text_bytes(text) {
        Some(bytes) => hex_decode(bytes.as_slice()),
        None => None,
    }
}

/// The lower-case hexadecimal text of bytes.
pub fn encode_hex(bytes: &[u8]) -> (r: String)
    ensures
        r@ == hex_text(bytes@),
{
    hex_encode(bytes)
}

/// The base64 text of bytes.
pub fn encode_base64(bytes: &[u8]) -> (r: String)
    ensures
        r@ == base64_encoded(bytes@),
        base64_decoded(r@) == Some(bytes@),
{
    base64_encode(bytes)
}

/// The bytes of a base64 text, or nothing where the text is not accepted.
pub fn decode_base64(text: &str) -> (r: Option<Vec<u8>>)
    ensures
        r is Some <==> base64_decoded(text@) is Some,
        r matches Some(b) ==> base64_decoded(text@) == Some(b@),
{
    base64_decode(text)
}

/// The bytes that a text writes, read as hexadecimal where it is
/// hexadecimal and as base64 otherwise.
pub open spec fn hex_or_base64(text: Seq<char>) -> Option<Seq<u8>> {
    if is_hex_text(text) {
        Some(hex_decoded(ascii_codes(text)))
    } else {
        base64_decoded(text)
    }
}

/// The bytes that a text writes, read as base64 where that is accepted and
/// as hexadecimal otherwise.
pub open spec fn base64_or_hex(text: Seq<char>) -> Option<Seq<u8>> {
    if base64_decoded(text) is Some {
        base64_decoded(text)
    } else if is_hex_text(text) {
        Some(hex_decoded(ascii_codes(text)))
    } else {
        None
    }
}

/// Chooses between the two readings of a text, the first one first.
pub fn first_reading(first: Option<Vec<u8>>, second: Option<Vec<u8>>) -> (r: Result<
    Vec<u8>,
    BridgeError,
>)
    ensures
        first matches Some(b) ==> (r matches Ok(v) && v@ == b@),
        first is None ==> (second matches Some(b) ==> (r matches Ok(v) && v@ == b@)),
        first is None && second is None ==> r == Err::<Vec<u8>, BridgeError>(
            BridgeError::InvalidEncoding,
        ),
{
    match first {
        Some(bytes) => Ok(bytes),
        None => match second {
            Some(bytes) => Ok(bytes),
            None => Err(BridgeError::InvalidEncoding),
        },
    }
}

/// Reads bytes from a text that is hexadecimal or, failing that, base64.
/// A text that is neither is an `InvalidEncoding`.
pub fn parse_hex_or_base64_bytes(text: &str) -> (r: Result<Vec<u8>, BridgeError>)
    ensures
        hex_or_base64(text@) matches Some(b) ==> (r matches Ok(v) && v@ == b),
        hex_or_base64(text@) is None ==> r == Err::<Vec<u8>, BridgeError>(
            BridgeError::InvalidEncoding,
        ),
{
    let hex = decode_hex(text);
    let base64 = decode_base64(text);
    first_reading(hex, base64)
}

/// Reads bytes from a text that is base64 or, failing that, hexadecimal.
/// A text that is neither is an `InvalidEncoding`.
pub fn parse_base64_or_hex_bytes(text: &str) -> (r: Result<Vec<u8>, BridgeError>)
    ensures
        base64_or_hex(text@) matches Some(b) ==> (r matches Ok(v) && v@ == b),
        base64_or_hex(text@) is None ==> r == Err::<Vec<u8>, BridgeError>(
            BridgeError::InvalidEncoding,
        ),
{
    let base64 = decode_base64(text);
    let hex = decode_hex(text);
    first_reading(base64, hex)
}

} // verus!
