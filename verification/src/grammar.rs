//! The text of a type, as a schema description writes it: a word, for some
//! words a number or an argument list in brackets, then any number of array
//! suffixes.

use vstd::prelude::*;
use vstd::string::StringExecFns;
use crate::number::{all_digits, digits_value, is_digit, lemma_digits_value_prefix};
use vstd::utf8::is_ascii_chars;
use crate::text::{ascii_codes, ascii_text, copy_range, text_bytes, text_from_bytes};
use crate::types::{params_view, lemma_tuple_type_view, Param, ParamModel, StrictType, TypeModel};

verus! {

/// Whether a byte is the code of a lower-case letter.
pub open spec fn is_lower(b: u8) -> bool {
    97 <= b <= 122
}

/// The end of the run of lower-case letters that starts at `pos`.
pub open spec fn letters_end(s: Seq<u8>, pos: int) -> int
    decreases s.len() - pos,
{
    if 0 <= pos < s.len() && is_lower(s[pos]) {
        letters_end(s, pos + 1)
    } else {
        pos
    }
}

/// The end of the run of decimal digits that starts at `pos`.
pub open spec fn digits_end(s: Seq<u8>, pos: int) -> int
    decreases s.len() - pos,
{
    if 0 <= pos < s.len() && is_digit(s[pos]) {
        digits_end(s, pos + 1)
    } else {
        pos
    }
}

/// The largest number that a type's text may hold.
pub open spec fn size_limit() -> nat {
    0xffff_ffff
}

/// The number written at `pos`, and where it ends: a run of one or more
/// digits whose value is within the limit.
pub open spec fn size_at(s: Seq<u8>, pos: int) -> Option<(nat, int)> {
    let end = digits_end(s, pos);
    if 0 <= pos < end <= s.len() && digits_value(s.subrange(pos, end)) <= size_limit() {
        Some((digits_value(s.subrange(pos, end)), end))
    } else {
        None
    }
}

/// The type of a word that takes a number: the width of an integer is at
/// most 65535, the size of a variable integer at most 255.
pub open spec fn sized_type(word: Seq<char>, n: nat) -> Option<TypeModel> {
    if word == "uint"@ || word == "int"@ {
        if n <= 0xffff {
            Some(TypeModel::Int { width: n, signed: word == "int"@ })
        } else {
            None
        }
    } else if word == "varuint"@ || word == "varint"@ {
        if n <= 0xff {
            Some(TypeModel::VarInt { size: n, signed: word == "varint"@ })
        } else {
            None
        }
    } else if word == "fixedbytes"@ {
        Some(TypeModel::FixedBytes(n))
    } else {
        None
    }
}

/// The type of a word that stands alone. A `tuple` has the components of
/// the parameter that the text belongs to.
pub open spec fn plain_type(word: Seq<char>, components: Seq<ParamModel>) -> Option<TypeModel> {
    if word == "bool"@ {
        Some(TypeModel::Bool)
    } else if word == "address"@ {
        Some(TypeModel::Address)
    } else if word == "bytes"@ {
        Some(TypeModel::Bytes)
    } else if word == "string"@ {
        Some(TypeModel::Text)
    } else if word == "cell"@ {
        Some(TypeModel::Cell)
    } else if word == "tuple"@ {
        Some(TypeModel::Tuple(components))
    } else {
        None
    }
}

/// The type written at `pos`, and where it ends: a base type and its array
/// suffixes.
pub open spec fn parsed_at(s: Seq<u8>, pos: int, components: Seq<ParamModel>) -> Option<
    (TypeModel, int),
>
    decreases s.len() - pos, 1nat,
{
    match parsed_base(s, pos, components) {
        Some((base, end)) => with_suffixes(s, end, base),
        None => None,
    }
}

/// The base type written at `pos`, and where it ends: `map(` key `,` value
/// `)`, `optional(` inner `)`, a word with a number, or a word alone.
pub open spec fn parsed_base(s: Seq<u8>, pos: int, components: Seq<ParamModel>) -> Option<
    (TypeModel, int),
>
    decreases s.len() - pos, 0nat,
{
    let end = letters_end(s, pos);
    if !(0 <= pos < end <= s.len()) {
        None
    } else {
        let word = ascii_text(s.subrange(pos, end));
        if word == "map"@ {
            if end < s.len() && s[end] == 40 {
                match parsed_at(s, end + 1, components) {
                    Some((key, comma)) => if end < comma < s.len() && s[comma] == 44 {
                        match parsed_at(s, comma + 1, components) {
                            Some((value, close)) => if comma < close < s.len() && s[close] == 41 {
                                Some((TypeModel::Mapping(Box::new(key), Box::new(value)), close + 1))
                            } else {
                                None
                            },
                            None => None,
                        }
                    } else {
                        None
                    },
                    None => None,
                }
            } else {
                None
            }
        } else if word == "optional"@ {
            if end < s.len() && s[end] == 40 {
                match parsed_at(s, end + 1, components) {
                    Some((inner, close)) => if end < close < s.len() && s[close] == 41 {
                        Some((TypeModel::Optional(Box::new(inner)), close + 1))
                    } else {
                        None
                    },
                    None => None,
                }
            } else {
                None
            }
        } else if end < s.len() && is_digit(s[end]) {
            match size_at(s, end) {
                Some((n, after)) => match sized_type(word, n) {
                    Some(ty) => Some((ty, after)),
                    None => None,
                },
                None => None,
            }
        } else {
            match plain_type(word, components) {
                Some(ty) => Some((ty, end)),
                None => None,
            }
        }
    }
}

/// The type that the suffixes at `pos` make of a base type, and where they
/// end: `[]` makes an array, `[` number `]` an array of that length.
pub open spec fn with_suffixes(s: Seq<u8>, pos: int, base: TypeModel) -> Option<(TypeModel, int)>
    decreases s.len() - pos,
{
    if 0 <= pos < s.len() && s[pos] == 91 {
        if pos + 1 < s.len() && s[pos + 1] == 93 {
            with_suffixes(s, pos + 2, TypeModel::Array(Box::new(base)))
        } else {
            match size_at(s, pos + 1) {
                Some((n, close)) => if pos < close < s.len() && s[close] == 93 {
                    with_suffixes(s, close + 1, TypeModel::FixedArray(Box::new(base), n))
                } else {
                    None
                },
                None => None,
            }
        }
    } else {
        Some((base, pos))
    }
}

/// The type that a text writes: the type at its start, where that ends with
/// the text.
pub open spec fn parsed_type(s: Seq<u8>, components: Seq<ParamModel>) -> Option<TypeModel> {
    match parsed_at(s, 0, components) {
        Some((ty, end)) => if end == s.len() {
            Some(ty)
        } else {
            None
        },
        None => None,
    }
}

/// The end of the run of lower-case letters that starts at `pos`.
fn scan_letters(s: &Vec<u8>, pos: usize) -> (end: usize)
    requires
        pos <= s.len(),
    ensures
        end == letters_end(s@, pos as int),
        pos <= end <= s.len(),
        forall|i: int| pos <= i < end ==> is_lower(#[trigger] s@[i]),
{
    let mut end = pos;
    while end < s.len() && 97 <= s[end] && s[end] <= 122
        invariant
            pos <= end <= s.len(),
            letters_end(s@, pos as int) == letters_end(s@, end as int),
            forall|i: int| pos <= i < end ==> is_lower(#[trigger] s@[i]),
        decreases s.len() - end,
    {
        end = end + 1;
    }
    end
}

/// The number written at `pos`, and where it ends.
fn scan_size(s: &Vec<u8>, pos: usize) -> (r: Option<(u32, usize)>)
    requires
        pos <= s.len(),
    ensures
        match r {
            Some((n, end)) => size_at(s@, pos as int) == Some((n as nat, end as int)) && pos < end
                <= s.len(),
            None => size_at(s@, pos as int) is None,
        },
{
    let mut end = pos;
    while end < s.len() && 48 <= s[end] && s[end] <= 57
        invariant
            pos <= end <= s.len(),
            digits_end(s@, pos as int) == digits_end(s@, end as int),
            all_digits(s@.subrange(pos as int, end as int)),
        decreases s.len() - end,
    {
        proof {
            let next = s@.subrange(pos as int, end + 1);
            assert forall|i: int| 0 <= i < next.len() implies is_digit(#[trigger] next[i]) by {
                if i < end - pos {
                    assert(is_digit(s@.subrange(pos as int, end as int)[i]));
                }
            }
        }
        end = end + 1;
    }
    if end == pos {
        return None;
    }
    let ghost digits = s@.subrange(pos as int, end as int);
    let mut acc: u64 = 0;
    let mut i: usize = pos;
    assert(digits.take(0) =~= Seq::<u8>::empty());
    while i < end
        invariant
            pos <= i <= end <= s.len(),
            digits == s@.subrange(pos as int, end as int),
            end == digits_end(s@, pos as int),
            all_digits(digits),
            acc == digits_value(digits.take(i - pos)),
            acc <= 0xffff_ffff,
        decreases end - i,
    {
        assert(is_digit(digits[i - pos]));
        proof {
            assert(digits.take(i + 1 - pos).drop_last() =~= digits.take(i - pos));
            assert(digits.take(i + 1 - pos).last() == s@[i as int]);
            lemma_digits_value_prefix(digits, i + 1 - pos);
        }
        acc = acc * 10 + (s[i] - 48) as u64;
        if acc > 0xffff_ffff {
            return None;
        }
        i = i + 1;
    }
    assert(digits.take(end - pos) =~= digits);
    Some((acc as u32, end))
}

/// Whether a word is the given one.
fn is_word(word: &String, literal: &str) -> (r: bool)
    ensures
        r == (word@ == literal@),
{
    *word == String::from_str(literal)
}

/// A copy of the parameters.
fn copy_params(params: &Vec<Param>) -> (r: Vec<Param>)
    ensures
        params_view(r@) == params_view(params@),
{
    let mut copy: Vec<Param> = Vec::new();
    let mut i: usize = 0;
    while i < params.len()
        invariant
            i <= params.len(),
            copy@.len() == i,
            forall|j: int| 0 <= j < i ==> (#[trigger] copy@[j])@ == params@[j]@,
        decreases params.len() - i,
    {
        let ty = params[i].ty.duplicate();
        copy.push(Param { name: params[i].name.clone(), ty });
        i = i + 1;
    }
    assert(params_view(copy@) =~= params_view(params@));
    copy
}

/// The type of a word that takes a number.
fn make_sized_type(word: &String, n: u32) -> (r: Option<StrictType>)
    ensures
        match r {
            Some(ty) => sized_type(word@, n as nat) == Some(ty@),
            None => sized_type(word@, n as nat) is None,
        },
{
    let signed_int = is_word(word, "int");
    let signed_var = is_word(word, "varint");
    if is_word(word, "uint") || signed_int {
        if n <= 0xffff {
            Some(StrictType::Int { width: n as u16, signed: signed_int })
        } else {
            None
        }
    } else if is_word(word, "varuint") || signed_var {
        if n <= 0xff {
            Some(StrictType::VarInt { size: n as u8, signed: signed_var })
        } else {
            None
        }
    } else if is_word(word, "fixedbytes") {
        Some(StrictType::FixedBytes(n as usize))
    } else {
        None
    }
}

/// The type of a word that stands alone.
fn make_plain_type(word: &String, components: &Vec<Param>) -> (r: Option<StrictType>)
    ensures
        match r {
            Some(ty) => plain_type(word@, params_view(components@)) == Some(ty@),
            None => plain_type(word@, params_view(components@)) is None,
        },
{
    if is_word(word, "bool") {
        Some(StrictType::Bool)
    } else if is_word(word, "address") {
        Some(StrictType::Address)
    } else if is_word(word, "bytes") {
        Some(StrictType::Bytes)
    } else if is_word(word, "string") {
        Some(StrictType::Text)
    } else if is_word(word, "cell") {
        Some(StrictType::Cell)
    } else if is_word(word, "tuple") {
        let copy = copy_params(components);
        proof {
            lemma_tuple_type_view(copy);
        }
        Some(StrictType::Tuple(copy))
    } else {
        None
    }
}

/// Reads the type written at `pos`.
fn parse_at(s: &Vec<u8>, pos: usize, components: &Vec<Param>) -> (r: Option<(StrictType, usize)>)
    requires
        pos <= s.len(),
    ensures
        match r {
            Some((ty, end)) => parsed_at(s@, pos as int, params_view(components@)) == Some(
                (ty@, end as int),
            ) && pos <= end <= s.len(),
            None => parsed_at(s@, pos as int, params_view(components@)) is None,
        },
    decreases s.len() - pos, 1nat,
{
    match parse_base(s, pos, components) {
        Some((base, end)) => parse_suffixes(s, end, base),
        None => None,
    }
}

/// Reads the base type written at `pos`.
fn parse_base(s: &Vec<u8>, pos: usize, components: &Vec<Param>) -> (r: Option<(StrictType, usize)>)
    requires
        pos <= s.len(),
    ensures
        match r {
            Some((ty, end)) => parsed_base(s@, pos as int, params_view(components@)) == Some(
                (ty@, end as int),
            ) && pos <= end <= s.len(),
            None => parsed_base(s@, pos as int, params_view(components@)) is None,
        },
    decreases s.len() - pos, 0nat,
{
    let end = scan_letters(s, pos);
    if end == pos {
        return None;
    }
    let letters = copy_range(s, pos, end);
    proof {
        assert forall|i: int| 0 <= i < letters@.len() implies #[trigger] letters@[i] < 128 by {
            assert(is_lower(s@[pos + i]));
        }
    }
    let word = text_from_bytes(&letters);
    if is_word(&word, "map") {
        if end < s.len() && s[end] == 40 {
            match parse_at(s, end + 1, components) {
                Some((key, comma)) => if comma < s.len() && s[comma] == 44 {
                    match parse_at(s, comma + 1, components) {
                        Some((value, close)) => if close < s.len() && s[close] == 41 {
                            Some((StrictType::Mapping(Box::new(key), Box::new(value)), close + 1))
                        } else {
                            None
                        },
                        None => None,
                    }
                } else {
                    None
                },
                None => None,
            }
        } else {
            None
        }
    } else if is_word(&word, "optional") {
        if end < s.len() && s[end] == 40 {
            match parse_at(s, end + 1, components) {
                Some((inner, close)) => if close < s.len() && s[close] == 41 {
                    Some((StrictType::Optional(Box::new(inner)), close + 1))
                } else {
                    None
                },
                None => None,
            }
        } else {
            None
        }
    } else if end < s.len() && 48 <= s[end] && s[end] <= 57 {
        match scan_size(s, end) {
            Some((n, after)) => match make_sized_type(&word, n) {
                Some(ty) => Some((ty, after)),
                None => None,
            },
            None => None,
        }
    } else {
        match make_plain_type(&word, components) {
            Some(ty) => Some((ty, end)),
            None => None,
        }
    }
}

/// Reads the array suffixes written at `pos` after a base type.
fn parse_suffixes(s: &Vec<u8>, pos: usize, base: StrictType) -> (r: Option<(StrictType, usize)>)
    requires
        pos <= s.len(),
    ensures
        match r {
            Some((ty, end)) => with_suffixes(s@, pos as int, base@) == Some((ty@, end as int))
                && pos <= end <= s.len(),
            None => with_suffixes(s@, pos as int, base@) is None,
        },
    decreases s.len() - pos,
{
    if pos < s.len() && s[pos] == 91 {
        if pos + 1 < s.len() && s[pos + 1] == 93 {
            parse_suffixes(s, pos + 2, StrictType::Array(Box::new(base)))
        } else {
            match scan_size(s, pos + 1) {
                Some((n, close)) => if close < s.len() && s[close] == 93 {
                    parse_suffixes(
                        s,
                        close + 1,
                        StrictType::FixedArray(Box::new(base), n as usize),
                    )
                } else {
                    None
                },
                None => None,
            }
        }
    } else {
        Some((base, pos))
    }
}

/// Reads a type from its text. The components are those of a `tuple` in the
/// text.
pub fn parse_type_text(text: &str, components: &Vec<Param>) -> (r: Option<StrictType>)
    ensures
        match r {
            Some(ty) => is_ascii_chars(text@) && parsed_type(
                ascii_codes(text@),
                params_view(components@),
            ) == Some(ty@),
            None => !is_ascii_chars(text@) || parsed_type(
                ascii_codes(text@),
                params_view(components@),
            ) is None,
        },
{
    let bytes = match text_bytes(text) {
        Some(bytes) => bytes,
        None => {
            return None;
        },
    };
    match parse_at(&bytes, 0, components) {
        Some((ty, end)) => if end == bytes.len() {
            Some(ty)
        } else {
            None
        },
        None => None,
    }
}

} // verus!
