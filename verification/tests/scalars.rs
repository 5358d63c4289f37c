use abi_bridge::address::Address;
use abi_bridge::error::BridgeError;
use abi_bridge::number::AbiInt;
use abi_bridge::scalar::{check_range, decode_scalar, encode_scalar, int_bits, value_of_bytes};
use abi_bridge::types::StrictType;
use abi_bridge::value::{HostValue, StrictValue};

fn number(text: &str) -> HostValue {
    HostValue::Number(text.to_string())
}

fn text(text: &str) -> HostValue {
    HostValue::Text(text.to_string())
}

fn uint(width: u16) -> StrictType {
    StrictType::Int { width, signed: false }
}

fn sint(width: u16) -> StrictType {
    StrictType::Int { width, signed: true }
}

#[test]
fn integer_at_the_boundary_of_eight_unsigned_bits() {
    assert_eq!(
        encode_scalar(&uint(8), &number("255")),
        Ok(StrictValue::Int(AbiInt::from_i64(255)))
    );
    assert_eq!(encode_scalar(&uint(8), &number("256")), Err(BridgeError::OutOfRange));
    assert_eq!(encode_scalar(&uint(8), &number("-1")), Err(BridgeError::OutOfRange));
    assert_eq!(encode_scalar(&uint(8), &number("0")), Ok(StrictValue::Int(AbiInt::from_i64(0))));
}

#[test]
fn integer_at_the_boundary_of_eight_signed_bits() {
    assert_eq!(encode_scalar(&sint(8), &number("127")), Ok(StrictValue::Int(AbiInt::from_i64(127))));
    assert_eq!(
        encode_scalar(&sint(8), &number("-128")),
        Ok(StrictValue::Int(AbiInt::from_i64(-128)))
    );
    assert_eq!(encode_scalar(&sint(8), &number("128")), Err(BridgeError::OutOfRange));
    assert_eq!(encode_scalar(&sint(8), &number("-129")), Err(BridgeError::OutOfRange));
}

#[test]
fn integer_at_the_boundary_of_256_bits() {
    let max = "115792089237316195423570985008687907853269984665640564039457584007913129639935";
    let above = "115792089237316195423570985008687907853269984665640564039457584007913129639936";
    assert!(encode_scalar(&uint(256), &number(max)).is_ok());
    assert_eq!(encode_scalar(&uint(256), &number(above)), Err(BridgeError::OutOfRange));
}

#[test]
fn integer_takes_a_number_or_a_numeric_text() {
    assert_eq!(encode_scalar(&uint(32), &text("42")), Ok(StrictValue::Int(AbiInt::from_i64(42))));
    assert_eq!(encode_scalar(&uint(32), &text("forty-two")), Err(BridgeError::TypeMismatch));
    assert_eq!(encode_scalar(&uint(32), &HostValue::Bool(true)), Err(BridgeError::TypeMismatch));
    assert_eq!(encode_scalar(&uint(32), &HostValue::Null), Err(BridgeError::TypeMismatch));
}

#[test]
fn variable_integer_holds_one_byte_less_than_its_size() {
    let ty = StrictType::VarInt { size: 16, signed: false };
    assert_eq!(int_bits(&ty), 120);
    let max = "1329227995784915872903807060280344575";
    let above = "1329227995784915872903807060280344576";
    assert_eq!(
        encode_scalar(&ty, &number(max)),
        Ok(StrictValue::VarInt(AbiInt::parse_decimal(max).unwrap()))
    );
    assert_eq!(encode_scalar(&ty, &number(above)), Err(BridgeError::OutOfRange));
    assert_eq!(int_bits(&StrictType::VarInt { size: 32, signed: true }), 248);
    assert_eq!(int_bits(&StrictType::VarInt { size: 0, signed: true }), 0);
    assert_eq!(int_bits(&StrictType::Bool), 0);
}

#[test]
fn large_integer_decodes_to_decimal_text() {
    let big = "340282366920938463463374607431768211456";
    let v = StrictValue::Int(AbiInt::parse_decimal(big).unwrap());
    assert_eq!(decode_scalar(&v), Some(number(big)));
    let small = StrictValue::Int(AbiInt::from_i64(7));
    assert_eq!(decode_scalar(&small), Some(number("7")));
}

#[test]
fn boolean_scalar() {
    assert_eq!(encode_scalar(&StrictType::Bool, &HostValue::Bool(true)), Ok(StrictValue::Bool(true)));
    assert_eq!(encode_scalar(&StrictType::Bool, &text("true")), Err(BridgeError::TypeMismatch));
    assert_eq!(decode_scalar(&StrictValue::Bool(false)), Some(HostValue::Bool(false)));
}

#[test]
fn address_scalar() {
    let hash = "00112233445566778899aabbccddeeff00112233445566778899aabbccddeeff";
    let good = format!("0:{}", hash);
    let value = encode_scalar(&StrictType::Address, &text(&good)).unwrap();
    assert_eq!(value, StrictValue::Address(Address::parse(&good).unwrap()));
    assert_eq!(decode_scalar(&value), Some(text(&good)));
    assert_eq!(
        encode_scalar(&StrictType::Address, &text("0:1234")),
        Err(BridgeError::InvalidAddress)
    );
    assert_eq!(
        encode_scalar(&StrictType::Address, &number("0")),
        Err(BridgeError::TypeMismatch)
    );
}

#[test]
fn bytes_scalar() {
    assert_eq!(
        encode_scalar(&StrictType::Bytes, &text("AQIDBA==")),
        Ok(StrictValue::Bytes(vec![1, 2, 3, 4]))
    );
    assert_eq!(
        encode_scalar(&StrictType::Bytes, &text("not base64!")),
        Err(BridgeError::InvalidEncoding)
    );
    assert_eq!(encode_scalar(&StrictType::Bytes, &HostValue::Null), Err(BridgeError::TypeMismatch));
    assert_eq!(decode_scalar(&StrictValue::Bytes(vec![1, 2, 3, 4])), Some(text("AQIDBA==")));
}

#[test]
fn fixed_bytes_of_the_wrong_length_are_a_type_mismatch() {
    let ty = StrictType::FixedBytes(4);
    assert_eq!(encode_scalar(&ty, &text("AQIDBA==")), Ok(StrictValue::FixedBytes(vec![1, 2, 3, 4])));
    assert_eq!(encode_scalar(&ty, &text("YWJj")), Err(BridgeError::TypeMismatch));
    assert_eq!(encode_scalar(&ty, &text("?")), Err(BridgeError::InvalidEncoding));
}

#[test]
fn cell_and_text_scalars() {
    assert_eq!(encode_scalar(&StrictType::Cell, &text("")), Ok(StrictValue::Cell(vec![])));
    assert_eq!(encode_scalar(&StrictType::Cell, &text("YWJj")), Ok(StrictValue::Cell(b"abc".to_vec())));
    assert_eq!(decode_scalar(&StrictValue::Cell(b"abc".to_vec())), Some(text("YWJj")));
    assert_eq!(
        encode_scalar(&StrictType::Text, &text("héllo")),
        Ok(StrictValue::Text("héllo".to_string()))
    );
    assert_eq!(encode_scalar(&StrictType::Text, &number("1")), Err(BridgeError::TypeMismatch));
    assert_eq!(decode_scalar(&StrictValue::Text("x".to_string())), Some(text("x")));
}

#[test]
fn composite_is_no_scalar() {
    let ty = StrictType::Array(Box::new(StrictType::Bool));
    assert_eq!(encode_scalar(&ty, &HostValue::List(vec![])), Err(BridgeError::TypeMismatch));
    assert_eq!(decode_scalar(&StrictValue::Array(vec![])), None);
    assert_eq!(decode_scalar(&StrictValue::Optional(None)), None);
}

#[test]
fn range_check_of_a_reading() {
    assert_eq!(check_range(Ok(AbiInt::from_i64(5)), 3, false), Ok(AbiInt::from_i64(5)));
    assert_eq!(check_range(Ok(AbiInt::from_i64(8)), 3, false), Err(BridgeError::OutOfRange));
    assert_eq!(check_range(Err(BridgeError::TypeMismatch), 3, false), Err(BridgeError::TypeMismatch));
}

#[test]
fn bytes_against_their_type() {
    assert_eq!(value_of_bytes(&StrictType::Bytes, None), Err(BridgeError::InvalidEncoding));
    assert_eq!(value_of_bytes(&StrictType::Bytes, Some(vec![1])), Ok(StrictValue::Bytes(vec![1])));
    assert_eq!(value_of_bytes(&StrictType::Cell, Some(vec![1])), Ok(StrictValue::Cell(vec![1])));
    assert_eq!(
        value_of_bytes(&StrictType::FixedBytes(2), Some(vec![1])),
        Err(BridgeError::TypeMismatch)
    );
    assert_eq!(value_of_bytes(&StrictType::Bool, Some(vec![1])), Err(BridgeError::TypeMismatch));
}
