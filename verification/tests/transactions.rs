use abi_bridge::crypto::encode_public_key;
use abi_bridge::error::BridgeError;
use abi_bridge::number::{parse_amount, AbiInt};
use abi_bridge::transaction::{
    find_inbound_call, find_outbound_bodies, find_outbound_body, InboundCall,
};
use abi_bridge::value::HostValue;

fn text(text: &str) -> HostValue {
    HostValue::Text(text.to_string())
}

fn object(entries: Vec<(&str, HostValue)>) -> HostValue {
    HostValue::Object(entries.into_iter().map(|(k, v)| (k.to_string(), v)).collect())
}

fn transaction(in_message: HostValue, out_messages: Vec<HostValue>) -> HostValue {
    object(vec![("inMessage", in_message), ("outMessages", HostValue::List(out_messages))])
}

#[test]
fn inbound_call_of_an_external_message() {
    let tx = transaction(object(vec![("body", text("te6c"))]), vec![]);
    assert_eq!(
        find_inbound_call(&tx),
        Ok(Some(InboundCall { body: "te6c".to_string(), internal: false }))
    );
}

#[test]
fn inbound_call_of_an_internal_message() {
    let tx = transaction(object(vec![("src", text("0:ab")), ("body", text("te6c"))]), vec![]);
    assert_eq!(
        find_inbound_call(&tx),
        Ok(Some(InboundCall { body: "te6c".to_string(), internal: true }))
    );
    let null_src = transaction(object(vec![("src", HostValue::Null), ("body", text("x"))]), vec![]);
    assert_eq!(
        find_inbound_call(&null_src),
        Ok(Some(InboundCall { body: "x".to_string(), internal: false }))
    );
}

#[test]
fn inbound_message_without_body_is_no_call() {
    let tx = transaction(object(vec![("src", text("0:ab"))]), vec![]);
    assert_eq!(find_inbound_call(&tx), Ok(None));
    let tx = transaction(object(vec![("body", HostValue::Null)]), vec![]);
    assert_eq!(find_inbound_call(&tx), Ok(None));
}

#[test]
fn transaction_must_be_an_object_with_an_inbound_message() {
    assert_eq!(find_inbound_call(&HostValue::Null), Err(BridgeError::TypeMismatch));
    assert_eq!(find_inbound_call(&object(vec![])), Err(BridgeError::TypeMismatch));
    assert_eq!(
        find_inbound_call(&object(vec![("inMessage", text("x"))])),
        Err(BridgeError::TypeMismatch)
    );
}

#[test]
fn outbound_bodies_leave_out_messages_to_contracts() {
    let tx = transaction(
        object(vec![]),
        vec![
            object(vec![("body", text("a"))]),
            object(vec![("dst", text("0:ab")), ("body", text("b"))]),
            object(vec![("dst", HostValue::Null), ("body", text("c"))]),
        ],
    );
    assert_eq!(find_outbound_bodies(&tx, true), Ok(vec!["a".to_string(), "c".to_string()]));
    assert_eq!(find_outbound_bodies(&tx, false), Ok(vec!["a".to_string(), "c".to_string()]));
}

#[test]
fn missing_body_is_a_fault_only_where_bodies_are_required() {
    let tx = transaction(
        object(vec![]),
        vec![object(vec![("body", text("a"))]), object(vec![]), object(vec![("body", text("c"))])],
    );
    assert_eq!(find_outbound_bodies(&tx, true), Err(BridgeError::TypeMismatch));
    assert_eq!(find_outbound_bodies(&tx, false), Ok(vec!["a".to_string(), "c".to_string()]));
    // A message to a contract needs no body.
    let to_contract = object(vec![("dst", text("0:ab"))]);
    assert_eq!(find_outbound_body(&to_contract, true), Ok(None));
    assert_eq!(find_outbound_body(&object(vec![]), true), Err(BridgeError::TypeMismatch));
    assert_eq!(find_outbound_body(&object(vec![]), false), Ok(None));
    assert_eq!(find_outbound_body(&text("x"), false), Err(BridgeError::TypeMismatch));
}

#[test]
fn outbound_messages_must_be_a_list_of_objects() {
    assert_eq!(find_outbound_bodies(&HostValue::Null, false), Err(BridgeError::TypeMismatch));
    assert_eq!(find_outbound_bodies(&object(vec![]), false), Err(BridgeError::TypeMismatch));
    assert_eq!(
        find_outbound_bodies(&object(vec![("outMessages", object(vec![]))]), false),
        Err(BridgeError::TypeMismatch)
    );
    let tx = transaction(object(vec![]), vec![object(vec![("body", text("a"))]), text("b")]);
    assert_eq!(find_outbound_bodies(&tx, false), Err(BridgeError::TypeMismatch));
    assert_eq!(find_outbound_bodies(&transaction(object(vec![]), vec![]), true), Ok(vec![]));
}

#[test]
fn public_key_text() {
    let key = vec![
        0xd7, 0x5a, 0x98, 0x01, 0x82, 0xb1, 0x0a, 0xb7, 0xd5, 0x4b, 0xfe, 0xd3, 0xc9, 0x64, 0x07,
        0x3a, 0x0e, 0xe1, 0x72, 0xf3, 0xda, 0xa6, 0x23, 0x25, 0xaf, 0x02, 0x1a, 0x68, 0xf7, 0x07,
        0x51, 0x1a,
    ];
    assert_eq!(
        encode_public_key(&key),
        Ok("d75a980182b10ab7d54bfed3c964073a0ee172f3daa62325af021a68f707511a".to_string())
    );
    assert_eq!(encode_public_key(&vec![1, 2, 3]), Err(BridgeError::TypeMismatch));
}

#[test]
fn amounts_are_unsigned_machine_numbers() {
    assert_eq!(AbiInt::parse_decimal("18446744073709551615").unwrap().to_u64(), Some(u64::MAX));
    assert_eq!(AbiInt::parse_decimal("18446744073709551616").unwrap().to_u64(), None);
    assert_eq!(AbiInt::parse_decimal("-1").unwrap().to_u64(), None);
    assert_eq!(AbiInt::parse_decimal("0").unwrap().to_u64(), Some(0));
}

#[test]
fn amount_text() {
    assert_eq!(parse_amount("0"), Some(0));
    assert_eq!(parse_amount("+15"), Some(15));
    assert_eq!(parse_amount("007"), Some(7));
    assert_eq!(parse_amount("18446744073709551615"), Some(u64::MAX));
    assert_eq!(parse_amount("18446744073709551616"), None);
    assert_eq!(parse_amount("-0"), None);
    assert_eq!(parse_amount("-1"), None);
    assert_eq!(parse_amount(""), None);
    assert_eq!(parse_amount("+"), None);
    assert_eq!(parse_amount("1.5"), None);
    assert_eq!(
        parse_amount("115792089237316195423570985008687907853269984665640564039457584007913129639936"),
        None
    );
}

#[test]
fn public_key_text_has_64_digits() {
    let key = abi_bridge::encoding::decode_hex(
        "d75a980182b10ab7d54bfed3c964073a0ee172f3daa62325af021a68f707511a",
    )
    .unwrap();
    let text = encode_public_key(&key).unwrap();
    assert_eq!(text.len(), 64);
    assert!(text.bytes().all(|b| b.is_ascii_digit() || (b'a'..=b'f').contains(&b)));
    // 33 bytes are no key, though the first 32 are one.
    let mut long = key.clone();
    long.push(0);
    assert_eq!(encode_public_key(&long), Err(BridgeError::TypeMismatch));
}
