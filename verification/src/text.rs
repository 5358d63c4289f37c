//! Text at the host boundary: strings as sequences of characters, ASCII
//! strings as bytes, and decimal digits.

use vstd::prelude::*;
use vstd::string::*;
use vstd::utf8::is_ascii_chars;

verus! {

/// `String::push` appends one character to the string.
pub assume_specification[ std::string::String::push ](s: &mut std::string::String, c: char)
    ensures
        final(s)@ == old(s)@.push(c),
;

/// The bytes of a text whose characters are all ASCII.
pub open spec fn ascii_codes(text: Seq<char>) -> Seq<u8> {
    Seq::new(text.len(), |i: int| text[i] as u8)
}

/// The text whose characters are the given ASCII bytes.
pub open spec fn ascii_text(bytes: Seq<u8>) -> Seq<char> {
    Seq::new(bytes.len(), |i: int| bytes[i] as char)
}

/// Whether every byte is an ASCII code.
pub open spec fn is_ascii_bytes(bytes: Seq<u8>) -> bool {
    forall|i: int| 0 <= i < bytes.len() ==> #[trigger] bytes[i] < 128
}

/// Changing an ASCII text into bytes and back, or bytes into text and back,
/// changes nothing.
pub proof fn lemma_ascii_round_trip(text: Seq<char>, bytes: Seq<u8>)
    ensures
        is_ascii_chars(text) ==> is_ascii_bytes(ascii_codes(text)) && ascii_text(ascii_codes(text))
            == text,
        is_ascii_bytes(bytes) ==> is_ascii_chars(ascii_text(bytes)) && ascii_codes(
            ascii_text(bytes),
        ) == bytes,
{
    if is_ascii_chars(text) {
        assert forall|i: int| 0 <= i < text.len() implies (#[trigger] ascii_codes(text)[i]) < 128
            && ascii_codes(text)[i] as char == text[i] by {
            let c = text[i];
            assert('\0' <= c <= '\u{7f}');
        }
        assert(ascii_text(ascii_codes(text)) =~= text);
    }
    if is_ascii_bytes(bytes) {
        assert forall|i: int| 0 <= i < bytes.len() implies '\0' <= (#[trigger] ascii_text(
            bytes,
        )[i]) <= '\u{7f}' && ascii_text(bytes)[i] as u8 == bytes[i] by {
            assert(bytes[i] < 128);
        }
        assert(ascii_codes(ascii_text(bytes)) =~= bytes);
    }
}

/// The bytes of a string, where all its characters are ASCII.
pub fn text_bytes(s: &str) -> (r: Option<Vec<u8>>)
    ensures
        r is Some <==> is_ascii_chars(s@),
        r matches Some(b) ==> b@ == ascii_codes(s@),
{
    if s.is_ascii() {
        let bytes = s.as_bytes_vec();
        proof {
            is_ascii_spec_bytes(s);
            assert(bytes@ =~= ascii_codes(s@));
        }
        Some(bytes)
    } else {
        None
    }
}

/// The string whose characters are the given ASCII bytes.
pub fn text_from_bytes(bytes: &Vec<u8>) -> (s: String)
    requires
        is_ascii_bytes(bytes@),
    ensures
        s@ == ascii_text(bytes@),
{
    let mut s = String::new();
    let mut i: usize = 0;
    while i < bytes.len()
        invariant
            i <= bytes.len(),
            s@ == ascii_text(bytes@.take(i as int)),
        decreases bytes.len() - i,
    {
        s.push(bytes[i] as char);
        proof {
            assert(bytes@.take(i + 1) =~= bytes@.take(i as int).push(bytes@[i as int]));
            assert(ascii_text(bytes@.take(i + 1)) =~= ascii_text(bytes@.take(i as int)).push(
                bytes@[i as int] as char,
            ));
        }
        i = i + 1;
    }
    proof {
        assert(bytes@.take(i as int) =~= bytes@);
    }
    s
}

/// A copy of the bytes from index `from` up to, not including, index `to`.
pub fn copy_range(bytes: &Vec<u8>, from: usize, to: usize) -> (r: Vec<u8>)
    requires
        from <= to <= bytes.len(),
    ensures
        r@ == bytes@.subrange(from as int, to as int),
{
    let mut r: Vec<u8> = Vec::new();
    let mut i: usize = from;
    while i < to
        invariant
            from <= i <= to <= bytes.len(),
            r@ == bytes@.subrange(from as int, i as int),
        decreases to - i,
    {
        r.push(bytes[i]);
        proof {
            assert(bytes@.subrange(from as int, i + 1) =~= bytes@.subrange(
                from as int,
                i as int,
            ).push(bytes@[i as int]));
        }
        i = i + 1;
    }
    r
}

/// Whether two byte vectors hold the same bytes.
pub fn bytes_equal(a: &Vec<u8>, b: &Vec<u8>) -> (r: bool)
    ensures
        r == (a@ == b@),
{
    if a.len() != b.len() {
        return false;
    }
    let mut i: usize = 0;
    while i < a.len()
        invariant
            i <= a.len(),
            a.len() == b.len(),
            forall|j: int| 0 <= j < i ==> a@[j] == b@[j],
        decreases a.len() - i,
    {
        if a[i] != b[i] {
            return false;
        }
        i = i + 1;
    }
    assert(a@ =~= b@);
    true
}

/// The text of two byte sequences, one after the other, is the text of the
/// first followed by the text of the second.
pub proof fn lemma_ascii_text_concat(a: Seq<u8>, b: Seq<u8>)
    ensures
        ascii_text(a + b) == ascii_text(a) + ascii_text(b),
        is_ascii_bytes(a) && is_ascii_bytes(b) ==> is_ascii_bytes(a + b),
{
    assert(ascii_text(a + b) =~= ascii_text(a) + ascii_text(b));
    if is_ascii_bytes(a) && is_ascii_bytes(b) {
        assert forall|i: int| 0 <= i < (a + b).len() implies #[trigger] (a + b)[i] < 128 by {
            if i < a.len() {
                assert(a[i] < 128);
            } else {
                assert(b[i - a.len()] < 128);
            }
        }
    }
}

} // verus!
