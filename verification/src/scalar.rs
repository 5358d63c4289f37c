//! The scalar codec: truth values, integers, addresses, bytes, texts and
//! cells between their host form and their strict form.

use vstd::prelude::*;
use vstd::arithmetic::power2::{lemma2_to64, lemma_pow2_adds, lemma_pow2_pos, lemma_pow2_strictly_increases, pow2};
use crate::wide::u256_limit;
use crate::address::{address_text, address_value, is_address_text, Address};
use crate::encoding::{base64_decoded, base64_encoded, decode_base64, encode_base64};
use crate::error::{result_view, BridgeError, ErrorModel};
use crate::number::{decimal_text, int_in_range, lemma_decimal_round_trip, literal_result, AbiInt};
use crate::types::{StrictType, TypeModel};
use crate::value::{HostModel, HostValue, StrictValue, ValueModel};

verus! {

impl TypeModel {
    /// Whether the type is a scalar: neither a map, a list, a tuple nor an
    /// optional.
    pub open spec fn is_scalar(self) -> bool {
        !(self is Mapping || self is Array || self is FixedArray || self is Tuple
            || self is Optional)
    }
}

impl ValueModel {
    /// Whether the value is a scalar.
    pub open spec fn is_scalar(self) -> bool {
        !(self is Mapping || self is Array || self is FixedArray || self is Tuple
            || self is Optional)
    }
}

/// The integer of a reading, where it fits `bits` bits; `OutOfRange` where it
/// does not; the reading's own error otherwise.
pub open spec fn range_checked(reading: Result<int, ErrorModel>, bits: nat, signed: bool) -> Result<
    int,
    ErrorModel,
> {
    match reading {
        Ok(v) => if int_in_range(v, bits, signed) {
            Ok(v)
        } else {
            Err(ErrorModel::OutOfRange)
        },
        Err(e) => Err(e),
    }
}

/// The integer that a host value gives to a field of `bits` bits: a number
/// or a text that is a decimal literal in range.
pub open spec fn encode_int(bits: nat, signed: bool, host: HostModel) -> Result<int, ErrorModel> {
    match host {
        HostModel::Number(text) => range_checked(literal_result(text), bits, signed),
        HostModel::Text(text) => range_checked(literal_result(text), bits, signed),
        _ => Err(ErrorModel::TypeMismatch),
    }
}

/// The strict value that the bytes read from a text give to a type of
/// bytes: `InvalidEncoding` where nothing was read, a `TypeMismatch` where
/// the type fixes another number of bytes.
pub open spec fn bytes_value(ty: TypeModel, reading: Option<Seq<u8>>) -> Result<
    ValueModel,
    ErrorModel,
> {
    match reading {
        None => Err(ErrorModel::InvalidEncoding),
        Some(bytes) => match ty {
            TypeModel::Bytes => Ok(ValueModel::Bytes(bytes)),
            TypeModel::Cell => Ok(ValueModel::Cell(bytes)),
            TypeModel::FixedBytes(n) => if bytes.len() == n {
                Ok(ValueModel::FixedBytes(bytes))
            } else {
                Err(ErrorModel::TypeMismatch)
            },
            _ => Err(ErrorModel::TypeMismatch),
        },
    }
}

/// The strict value that a host value gives to a scalar type.
///
/// A truth value takes a boolean. An integer takes a number or a text that
/// is a decimal literal, and the literal must fit the declared width. An
/// address takes its two-part text. Bytes and cells take base64 text, and
/// fixed bytes must have the declared length. A text takes a text. Every
/// other host value, and every type that is no scalar, is a `TypeMismatch`.
pub open spec fn encoded_scalar(ty: TypeModel, host: HostModel) -> Result<
    ValueModel,
    ErrorModel,
> {
    match ty {
        TypeModel::Bool => match host {
            HostModel::Bool(b) => Ok(ValueModel::Bool(b)),
            _ => Err(ErrorModel::TypeMismatch),
        },
        TypeModel::Int { signed, .. } => match encode_int(ty.int_bits(), signed, host) {
            Ok(v) => Ok(ValueModel::Int(v)),
            Err(e) => Err(e),
        },
        TypeModel::VarInt { signed, .. } => match encode_int(ty.int_bits(), signed, host) {
            Ok(v) => Ok(ValueModel::VarInt(v)),
            Err(e) => Err(e),
        },
        TypeModel::Address => match host {
            HostModel::Text(text) => if is_address_text(text) {
                Ok(ValueModel::Address(address_value(text)))
            } else {
                Err(ErrorModel::InvalidAddress)
            },
            _ => Err(ErrorModel::TypeMismatch),
        },
        TypeModel::Text => match host {
            HostModel::Text(text) => Ok(ValueModel::Text(text)),
            _ => Err(ErrorModel::TypeMismatch),
        },
        TypeModel::Bytes | TypeModel::FixedBytes(_) | TypeModel::Cell => match host {
            HostModel::Text(text) => bytes_value(ty, base64_decoded(text)),
            _ => Err(ErrorModel::TypeMismatch),
        },
        _ => Err(ErrorModel::TypeMismatch),
    }
}

/// The host value of a scalar: a boolean for a truth value, the canonical
/// decimal text for an integer, the canonical text for an address, base64
/// text for bytes and cells, the text itself for a text. A value that is no
/// scalar has none.
pub open spec fn decoded_scalar(v: ValueModel) -> Option<HostModel> {
    match v {
        ValueModel::Bool(b) => Some(HostModel::Bool(b)),
        ValueModel::Int(n) => Some(HostModel::Number(decimal_text(n))),
        ValueModel::VarInt(n) => Some(HostModel::Number(decimal_text(n))),
        ValueModel::Address(a) => Some(HostModel::Text(address_text(a))),
        ValueModel::Bytes(b) => Some(HostModel::Text(base64_encoded(b))),
        ValueModel::FixedBytes(b) => Some(HostModel::Text(base64_encoded(b))),
        ValueModel::Cell(b) => Some(HostModel::Text(base64_encoded(b))),
        ValueModel::Text(text) => Some(HostModel::Text(text)),
        _ => None,
    }
}

/// The least integer of a field of `width` bits.
pub open spec fn least_int(width: nat, signed: bool) -> int {
    if signed {
        -pow2((width - 1) as nat)
    } else {
        0
    }
}

/// The greatest integer of a field of `width` bits.
pub open spec fn greatest_int(width: nat, signed: bool) -> int {
    if signed {
        pow2((width - 1) as nat) - 1
    } else {
        pow2(width) - 1
    }
}

/// Integer fidelity: the literals of the least and of the greatest integer
/// of a declared width encode to those integers, and the literals of the
/// integers one below and one above are `OutOfRange`.
pub proof fn lemma_integer_boundaries(width: nat, signed: bool)
    requires
        1 <= width <= 256,
    ensures
        encoded_scalar(
            TypeModel::Int { width, signed },
            HostModel::Number(decimal_text(least_int(width, signed))),
        ) == Ok::<ValueModel, ErrorModel>(ValueModel::Int(least_int(width, signed))),
        encoded_scalar(
            TypeModel::Int { width, signed },
            HostModel::Number(decimal_text(greatest_int(width, signed))),
        ) == Ok::<ValueModel, ErrorModel>(ValueModel::Int(greatest_int(width, signed))),
        encoded_scalar(
            TypeModel::Int { width, signed },
            HostModel::Number(decimal_text(least_int(width, signed) - 1)),
        ) == Err::<ValueModel, ErrorModel>(ErrorModel::OutOfRange),
        encoded_scalar(
            TypeModel::Int { width, signed },
            HostModel::Number(decimal_text(greatest_int(width, signed) + 1)),
        ) == Err::<ValueModel, ErrorModel>(ErrorModel::OutOfRange),
{
    let low = least_int(width, signed);
    let high = greatest_int(width, signed);
    lemma_decimal_round_trip(low);
    lemma_decimal_round_trip(high);
    lemma_decimal_round_trip(low - 1);
    lemma_decimal_round_trip(high + 1);
    lemma2_to64();
    lemma_pow2_adds(64, 64);
    lemma_pow2_adds(128, 64);
    lemma_pow2_adds(192, 64);
    assert(pow2(256) == u256_limit());
    lemma_pow2_pos(width);
    lemma_pow2_pos((width - 1) as nat);
    if width < 256 {
        lemma_pow2_strictly_increases(width, 256);
    }
    lemma_pow2_strictly_increases((width - 1) as nat, 256);
}

/// Whether base64 reads the text of the bytes back as those bytes. The
/// encoder promises this of each text that it returns.
pub open spec fn bytes_read_back(bytes: Seq<u8>) -> bool {
    base64_decoded(base64_encoded(bytes)) == Some(bytes)
}

/// Whether base64 reads back the text of the bytes that a scalar holds.
pub open spec fn scalar_reads_back(v: ValueModel) -> bool {
    match v {
        ValueModel::Bytes(b) => bytes_read_back(b),
        ValueModel::FixedBytes(b) => bytes_read_back(b),
        ValueModel::Cell(b) => bytes_read_back(b),
        _ => true,
    }
}

/// The number of bits of the range of an integer type; zero for any other
/// type.
pub fn int_bits(ty: &StrictType) -> (r: u16)
    ensures
        r == ty@.int_bits(),
{
    match ty {
        StrictType::Int { width, .. } => *width,
        StrictType::VarInt { size, .. } => if *size >= 1 {
            8 * (*size as u16 - 1)
        } else {
            0
        },
        _ => 0,
    }
}

/// Holds a reading against the range of `bits` bits.
pub fn check_range(reading: Result<AbiInt, BridgeError>, bits: u16, signed: bool) -> (r: Result<
    AbiInt,
    BridgeError,
>)
    ensures
        result_view(r) == range_checked(result_view(reading), bits as nat, signed),
{
    match reading {
        Ok(v) => if v.fits(bits, signed) {
            Ok(v)
        } else {
            Err(BridgeError::OutOfRange)
        },
        Err(e) => Err(e),
    }
}

/// Gives the bytes read from a text to a type of bytes.
pub fn value_of_bytes(ty: &StrictType, reading: Option<Vec<u8>>) -> (r: Result<
    StrictValue,
    BridgeError,
>)
    ensures
        result_view(r) == bytes_value(
            ty@,
            match reading {
                Some(b) => Some(b@),
                None => None,
            },
        ),
{
    match reading {
        None => Err(BridgeError::InvalidEncoding),
        Some(bytes) => match ty {
            StrictType::Bytes => Ok(StrictValue::Bytes(bytes)),
            StrictType::Cell => Ok(StrictValue::Cell(bytes)),
            StrictType::FixedBytes(n) => if bytes.len() == *n {
                Ok(StrictValue::FixedBytes(bytes))
            } else {
                Err(BridgeError::TypeMismatch)
            },
            _ => Err(BridgeError::TypeMismatch),
        },
    }
}

/// Converts a host value into the strict value of a scalar type.
pub fn encode_scalar(ty: &StrictType, host: &HostValue) -> (r: Result<StrictValue, BridgeError>)
    ensures
        result_view(r) == encoded_scalar(ty@, host@),
{
    match ty {
        StrictType::Bool => match host {
            HostValue::Bool(b) => Ok(StrictValue::Bool(*b)),
            _ => Err(BridgeError::TypeMismatch),
        },
        StrictType::Int { signed, .. } => {
            let reading = match host {
                HostValue::Number(text) => AbiInt::parse_decimal(text.as_str()),
                HostValue::Text(text) => AbiInt::parse_decimal(text.as_str()),
                _ => {
                    return Err(BridgeError::TypeMismatch);
                },
            };
            match check_range(reading, int_bits(ty), *signed) {
                Ok(v) => Ok(StrictValue::Int(v)),
                Err(e) => Err(e),
            }
        },
        StrictType::VarInt { signed, .. } => {
            let reading = match host {
                HostValue::Number(text) => AbiInt::parse_decimal(text.as_str()),
                HostValue::Text(text) => AbiInt::parse_decimal(text.as_str()),
                _ => {
                    return Err(BridgeError::TypeMismatch);
                },
            };
            match check_range(reading, int_bits(ty), *signed) {
                Ok(v) => Ok(StrictValue::VarInt(v)),
                Err(e) => Err(e),
            }
        },
        StrictType::Address => match host {
            HostValue::Text(text) => match Address::parse(text.as_str()) {
                Ok(a) => Ok(StrictValue::Address(a)),
                Err(e) => Err(e),
            },
            _ => Err(BridgeError::TypeMismatch),
        },
        StrictType::Text => match host {
            HostValue::Text(text) => Ok(StrictValue::Text(text.clone())),
            _ => Err(BridgeError::TypeMismatch),
        },
        StrictType::Bytes | StrictType::FixedBytes(_) | StrictType::Cell => match host {
            HostValue::Text(text) => value_of_bytes(ty, decode_base64(text.as_str())),
            _ => Err(BridgeError::TypeMismatch),
        },
        _ => Err(BridgeError::TypeMismatch),
    }
}

/// Converts a scalar into its host value; a value that is no scalar has
/// none.
pub fn decode_scalar(v: &StrictValue) -> (r: Option<HostValue>)
    ensures
        match r {
            Some(h) => decoded_scalar(v@) == Some(h@) && scalar_reads_back(v@),
            None => decoded_scalar(v@) is None,
        },
{
    match v {
        StrictValue::Bool(b) => Some(HostValue::Bool(*b)),
        StrictValue::Int(n) => Some(HostValue::Number(n.to_decimal())),
        StrictValue::VarInt(n) => Some(HostValue::Number(n.to_decimal())),
        StrictValue::Address(a) => Some(HostValue::Text(a.to_text())),
        StrictValue::Bytes(b) => Some(HostValue::Text(encode_base64(b.as_slice()))),
        StrictValue::FixedBytes(b) => Some(HostValue::Text(encode_base64(b.as_slice()))),
        StrictValue::Cell(b) => Some(HostValue::Text(encode_base64(b.as_slice()))),
        StrictValue::Text(text) => Some(HostValue::Text(text.clone())),
        _ => None,
    }
}

} // verus!
