use abi_bridge::codec::{decode, decode_value, encode, encode_value, find_entry, key_to_text};
use abi_bridge::error::BridgeError;
use abi_bridge::number::AbiInt;
use abi_bridge::types::{Param, ParameterSchema, StrictType};
use abi_bridge::value::{HostValue, StrictValue};

fn number(text: &str) -> HostValue {
    HostValue::Number(text.to_string())
}

fn text(text: &str) -> HostValue {
    HostValue::Text(text.to_string())
}

fn object(entries: Vec<(&str, HostValue)>) -> HostValue {
    HostValue::Object(entries.into_iter().map(|(k, v)| (k.to_string(), v)).collect())
}

fn uint(width: u16) -> StrictType {
    StrictType::Int { width, signed: false }
}

fn param(name: &str, ty: StrictType) -> Param {
    Param { name: name.to_string(), ty }
}

fn int_value(x: i64) -> StrictValue {
    StrictValue::Int(AbiInt::from_i64(x))
}

#[test]
fn fixed_array_of_three_takes_three_items() {
    let ty = StrictType::FixedArray(Box::new(uint(8)), 3);
    let two = HostValue::List(vec![number("1"), number("2")]);
    let three = HostValue::List(vec![number("1"), number("2"), number("3")]);
    let four = HostValue::List(vec![number("1"), number("2"), number("3"), number("4")]);
    assert_eq!(encode_value(&ty, &two), Err(BridgeError::LengthMismatch));
    assert_eq!(encode_value(&ty, &four), Err(BridgeError::LengthMismatch));
    assert_eq!(
        encode_value(&ty, &three),
        Ok(StrictValue::FixedArray(vec![int_value(1), int_value(2), int_value(3)]))
    );
}

#[test]
fn fixed_array_holds_its_length_before_its_items() {
    let ty = StrictType::FixedArray(Box::new(uint(8)), 1);
    let host = HostValue::List(vec![number("999"), number("1")]);
    assert_eq!(encode_value(&ty, &host), Err(BridgeError::LengthMismatch));
    let one = HostValue::List(vec![number("999")]);
    assert_eq!(encode_value(&ty, &one), Err(BridgeError::OutOfRange));
}

#[test]
fn array_reports_the_first_error() {
    let ty = StrictType::Array(Box::new(uint(8)));
    let host = HostValue::List(vec![number("1"), text("x"), number("256")]);
    assert_eq!(encode_value(&ty, &host), Err(BridgeError::TypeMismatch));
    let host = HostValue::List(vec![number("1"), number("256"), text("x")]);
    assert_eq!(encode_value(&ty, &host), Err(BridgeError::OutOfRange));
    assert_eq!(encode_value(&ty, &HostValue::List(vec![])), Ok(StrictValue::Array(vec![])));
    assert_eq!(encode_value(&ty, &object(vec![])), Err(BridgeError::TypeMismatch));
}

#[test]
fn tuple_follows_the_order_of_its_parameters() {
    let ty = StrictType::Tuple(vec![param("a", uint(8)), param("b", StrictType::Bool)]);
    let host = object(vec![("b", HostValue::Bool(true)), ("extra", HostValue::Null), ("a", number("7"))]);
    assert_eq!(
        encode_value(&ty, &host),
        Ok(StrictValue::Tuple(vec![
            ("a".to_string(), int_value(7)),
            ("b".to_string(), StrictValue::Bool(true)),
        ]))
    );
}

#[test]
fn missing_parameter_is_named() {
    let ty = StrictType::Tuple(vec![param("a", uint(8)), param("b", StrictType::Bool)]);
    let host = object(vec![("a", number("7"))]);
    assert_eq!(encode_value(&ty, &host), Err(BridgeError::ParameterMissing("b".to_string())));
    let host = object(vec![]);
    assert_eq!(encode_value(&ty, &host), Err(BridgeError::ParameterMissing("a".to_string())));
    assert_eq!(encode_value(&ty, &HostValue::List(vec![])), Err(BridgeError::TypeMismatch));
}

#[test]
fn missing_optional_parameter_is_absent() {
    let ty = StrictType::Tuple(vec![
        param("a", StrictType::Optional(Box::new(uint(8)))),
        param("b", StrictType::Optional(Box::new(StrictType::Bool))),
    ]);
    let host = object(vec![("b", HostValue::Bool(false))]);
    assert_eq!(
        encode_value(&ty, &host),
        Ok(StrictValue::Tuple(vec![
            ("a".to_string(), StrictValue::Optional(None)),
            ("b".to_string(), StrictValue::Optional(Some(Box::new(StrictValue::Bool(false))))),
        ]))
    );
}

#[test]
fn optional_takes_null_or_its_inner_value() {
    let ty = StrictType::Optional(Box::new(uint(8)));
    assert_eq!(encode_value(&ty, &HostValue::Null), Ok(StrictValue::Optional(None)));
    assert_eq!(
        encode_value(&ty, &number("5")),
        Ok(StrictValue::Optional(Some(Box::new(int_value(5)))))
    );
    assert_eq!(encode_value(&ty, &number("500")), Err(BridgeError::OutOfRange));
    assert_eq!(decode_value(&StrictValue::Optional(None)), HostValue::Null);
    assert_eq!(decode_value(&StrictValue::Optional(Some(Box::new(int_value(5))))), number("5"));
}

#[test]
fn first_entry_of_a_name_counts() {
    let ty = StrictType::Tuple(vec![param("a", uint(8))]);
    let host = object(vec![("a", number("1")), ("a", number("2"))]);
    assert_eq!(encode_value(&ty, &host), Ok(StrictValue::Tuple(vec![("a".to_string(), int_value(1))])));
    let entries = vec![("a".to_string(), number("1")), ("a".to_string(), number("2"))];
    assert_eq!(find_entry(&entries, &"a".to_string()), Some(&number("1")));
    assert_eq!(find_entry(&entries, &"b".to_string()), None);
}

#[test]
fn map_keys_are_normalized_and_may_not_repeat() {
    let ty = StrictType::Mapping(Box::new(uint(8)), Box::new(StrictType::Bool));
    let host = object(vec![("1", HostValue::Bool(true)), ("02", HostValue::Bool(false))]);
    assert_eq!(
        encode_value(&ty, &host),
        Ok(StrictValue::Mapping(vec![
            (int_value(1), StrictValue::Bool(true)),
            (int_value(2), StrictValue::Bool(false)),
        ]))
    );
    let twice = object(vec![("1", HostValue::Bool(true)), ("01", HostValue::Bool(false))]);
    assert_eq!(encode_value(&ty, &twice), Err(BridgeError::ParameterConflict("01".to_string())));
    let bad_key = object(vec![("x", HostValue::Bool(true))]);
    assert_eq!(encode_value(&ty, &bad_key), Err(BridgeError::TypeMismatch));
    let big_key = object(vec![("256", HostValue::Bool(true))]);
    assert_eq!(encode_value(&ty, &big_key), Err(BridgeError::OutOfRange));
    let bad_value = object(vec![("1", number("1"))]);
    assert_eq!(encode_value(&ty, &bad_value), Err(BridgeError::TypeMismatch));
}

#[test]
fn map_with_address_keys() {
    let ty = StrictType::Mapping(Box::new(StrictType::Address), Box::new(uint(8)));
    let upper = "0:ABCDEF0123456789ABCDEF0123456789ABCDEF0123456789ABCDEF0123456789";
    let lower = "0:abcdef0123456789abcdef0123456789abcdef0123456789abcdef0123456789";
    let host = object(vec![(upper, number("1"))]);
    let value = encode_value(&ty, &host).unwrap();
    assert_eq!(decode_value(&value), object(vec![(lower, number("1"))]));
    let twice = object(vec![(upper, number("1")), (lower, number("2"))]);
    assert_eq!(encode_value(&ty, &twice), Err(BridgeError::ParameterConflict(lower.to_string())));
}

#[test]
fn map_key_must_be_an_integer_or_an_address() {
    let ty = StrictType::Mapping(Box::new(StrictType::Bool), Box::new(uint(8)));
    assert_eq!(encode_value(&ty, &object(vec![])), Err(BridgeError::TypeMismatch));
    assert_eq!(key_to_text(&StrictValue::Bool(true)), "");
    assert_eq!(key_to_text(&int_value(-3)), "-3");
}

fn sample_schema() -> ParameterSchema {
    ParameterSchema::new(vec![
        param("amount", uint(128)),
        param("flags", StrictType::Array(Box::new(StrictType::Bool))),
        param(
            "owner",
            StrictType::Tuple(vec![param("name", StrictType::Text), param("id", uint(8))]),
        ),
        param("note", StrictType::Optional(Box::new(StrictType::Bytes))),
        param("book", StrictType::Mapping(Box::new(uint(8)), Box::new(StrictType::Text))),
    ])
    .unwrap()
}

fn sample_host() -> HostValue {
    object(vec![
        ("amount", number("340282366920938463463374607431768211455")),
        ("flags", HostValue::List(vec![HostValue::Bool(true), HostValue::Bool(false)])),
        ("owner", object(vec![("name", text("ann")), ("id", number("9"))])),
        ("note", text("AQIDBA==")),
        ("book", object(vec![("2", text("two")), ("1", text("one"))])),
    ])
}

#[test]
fn decoding_what_was_encoded_gives_the_host_value_back() {
    let schema = sample_schema();
    let host = sample_host();
    let values = encode(&schema, &host).unwrap();
    assert_eq!(values.len(), 5);
    assert_eq!(decode(&schema, &values), Ok(host));
}

#[test]
fn decoding_normalizes_spellings_and_order() {
    let schema = sample_schema();
    let loose = object(vec![
        ("unused", HostValue::Null),
        ("book", object(vec![("002", text("two")), ("+1", text("one"))])),
        ("owner", object(vec![("id", text("09")), ("name", text("ann"))])),
        ("flags", HostValue::List(vec![HostValue::Bool(true), HostValue::Bool(false)])),
        ("amount", text("0340282366920938463463374607431768211455")),
        ("note", text("AQIDBA")),
    ]);
    let values = encode(&schema, &loose).unwrap();
    assert_eq!(values, encode(&schema, &sample_host()).unwrap());
    let back = decode(&schema, &values).unwrap();
    assert_eq!(back, sample_host());
    assert_eq!(encode(&schema, &back), Ok(values));
}

#[test]
fn absent_optional_decodes_to_null() {
    let schema = ParameterSchema::new(vec![param(
        "note",
        StrictType::Optional(Box::new(StrictType::Bytes)),
    )])
    .unwrap();
    let values = encode(&schema, &object(vec![])).unwrap();
    assert_eq!(values, vec![StrictValue::Optional(None)]);
    assert_eq!(decode(&schema, &values), Ok(object(vec![("note", HostValue::Null)])));
}

#[test]
fn schema_without_parameters_takes_any_host_value() {
    let schema = ParameterSchema::new(vec![]).unwrap();
    assert_eq!(encode(&schema, &HostValue::Null), Ok(vec![]));
    assert_eq!(encode(&schema, &object(vec![("a", number("1"))])), Ok(vec![]));
    assert_eq!(decode(&schema, &vec![]), Ok(object(vec![])));
}

#[test]
fn schema_with_parameters_takes_an_object() {
    let schema = ParameterSchema::new(vec![param("a", uint(8))]).unwrap();
    assert_eq!(encode(&schema, &HostValue::Null), Err(BridgeError::TypeMismatch));
    assert_eq!(encode(&schema, &object(vec![])), Err(BridgeError::ParameterMissing("a".to_string())));
    assert_eq!(encode(&schema, &object(vec![("a", number("3"))])), Ok(vec![int_value(3)]));
}

#[test]
fn decode_asks_for_one_value_for_each_parameter() {
    let schema = ParameterSchema::new(vec![param("a", uint(8))]).unwrap();
    assert_eq!(decode(&schema, &vec![]), Err(BridgeError::LengthMismatch));
    assert_eq!(decode(&schema, &vec![int_value(1), int_value(2)]), Err(BridgeError::LengthMismatch));
    assert_eq!(decode(&schema, &vec![int_value(1)]), Ok(object(vec![("a", number("1"))])));
}

#[test]
fn nested_composites_decode() {
    let value = StrictValue::Array(vec![
        StrictValue::Tuple(vec![("k".to_string(), StrictValue::FixedArray(vec![int_value(1)]))]),
    ]);
    assert_eq!(
        decode_value(&value),
        HostValue::List(vec![object(vec![("k", HostValue::List(vec![number("1")]))])])
    );
    let ty = StrictType::Array(Box::new(StrictType::Tuple(vec![param(
        "k",
        StrictType::FixedArray(Box::new(uint(8)), 1),
    )])));
    assert_eq!(encode_value(&ty, &decode_value(&value)), Ok(value));
}

#[test]
fn host_value_copy_is_equal() {
    let host = sample_host();
    assert_eq!(host.duplicate(), host);
}
