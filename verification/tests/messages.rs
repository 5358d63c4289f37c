use abi_bridge::address::Address;
use abi_bridge::crypto::{sign_and_wipe, verify_signature};
use abi_bridge::encoding::{decode_hex, encode_hex};
use abi_bridge::error::BridgeError;
use abi_bridge::message::{
    build_unsigned_message, finalize_signed_message, replace_key, resolve_expiration, DeployPayload,
    DraftState, MessageExpiration, UnsignedMessageDraft,
};
use abi_bridge::number::AbiInt;
use abi_bridge::types::{Param, ParameterSchema, StrictType};
use abi_bridge::value::{HostValue, StrictValue};

const DESTINATION: &str = "0:00112233445566778899aabbccddeeff00112233445566778899aabbccddeeff";
const SECRET: &str = "9d61b19deffd5a60ba844af492ec2cc44449c5697b326919703bac031cae7f60";
const PUBLIC: &str = "d75a980182b10ab7d54bfed3c964073a0ee172f3daa62325af021a68f707511a";

fn schema() -> ParameterSchema {
    ParameterSchema::new(vec![Param {
        name: "amount".to_string(),
        ty: StrictType::Int { width: 64, signed: false },
    }])
    .unwrap()
}

fn input() -> HostValue {
    HostValue::Object(vec![("amount".to_string(), HostValue::Number("5".to_string()))])
}

fn draft(expiration: MessageExpiration, signature_id: Option<i32>, now: u64) -> UnsignedMessageDraft {
    build_unsigned_message(DESTINATION, None, &schema(), &input(), expiration, signature_id, now)
        .unwrap()
}

#[test]
fn draft_holds_what_it_was_built_from() {
    let d = draft(MessageExpiration::Timeout(60), Some(3), 1000);
    assert_eq!(d.state(), DraftState::Draft);
    assert_eq!(d.expire_at(), 1060);
    assert_eq!(d.signature_id(), Some(3));
    assert_eq!(d.destination(), &Address::parse(DESTINATION).unwrap());
    assert_eq!(d.values(), &vec![StrictValue::Int(AbiInt::from_i64(5))]);
    assert_eq!(d.deploy(), &None);
}

#[test]
fn expiration_is_resolved_once() {
    assert_eq!(resolve_expiration(MessageExpiration::Timeout(60), 1000), 1060);
    assert_eq!(resolve_expiration(MessageExpiration::Timeout(0), 1000), 1000);
    assert_eq!(resolve_expiration(MessageExpiration::At(77), 1000), 77);
    assert_eq!(resolve_expiration(MessageExpiration::Timeout(5), u64::MAX - 2), u64::MAX);
}

#[test]
fn build_faults_in_order() {
    let s = schema();
    let bad = HostValue::Object(vec![("amount".to_string(), HostValue::Text("x".to_string()))]);
    let past = MessageExpiration::At(10);
    let later = MessageExpiration::Timeout(1);
    assert_eq!(
        build_unsigned_message("nowhere", None, &s, &bad, past, None, 11).unwrap_err(),
        BridgeError::InvalidAddress
    );
    assert_eq!(
        build_unsigned_message(DESTINATION, None, &s, &bad, past, None, 11).unwrap_err(),
        BridgeError::TypeMismatch
    );
    assert_eq!(
        build_unsigned_message(DESTINATION, None, &s, &input(), past, None, 11).unwrap_err(),
        BridgeError::MessageExpired(10)
    );
    assert!(build_unsigned_message(DESTINATION, None, &s, &input(), past, None, 10).is_ok());
    assert!(build_unsigned_message(DESTINATION, None, &s, &input(), later, None, 11).is_ok());
}

#[test]
fn hash_covers_the_body_with_an_empty_signature_slot() {
    let mut d = draft(MessageExpiration::Timeout(60), None, 1000);
    let hash = d.prepare_hash(vec![1, 2, 3], 1000).unwrap();
    assert_eq!(
        encode_hex(&hash),
        "bf17e1fb67d777169f281ef961c450bcf7a8af15df1de25e6ebc340b7aceb471"
    );
    assert_eq!(d.state(), DraftState::HashReady);
    assert_eq!(d.signing_hash(1060), Ok(hash));
    assert_eq!(d.signing_hash(1061), Err(BridgeError::MessageExpired(1060)));
}

#[test]
fn hash_includes_the_signature_domain() {
    let mut with_seven = draft(MessageExpiration::Timeout(60), Some(7), 1000);
    let mut with_minus_one = draft(MessageExpiration::Timeout(60), Some(-1), 1000);
    let mut without = draft(MessageExpiration::Timeout(60), None, 1000);
    let a = with_seven.prepare_hash(vec![1, 2, 3], 1000).unwrap();
    let b = with_minus_one.prepare_hash(vec![1, 2, 3], 1000).unwrap();
    let c = without.prepare_hash(vec![1, 2, 3], 1000).unwrap();
    assert_eq!(encode_hex(&a), "2a9523598bde0ae425c36edb201d968bcc8e7538a4e3e7c275ef89d91f0772c9");
    assert_eq!(encode_hex(&b), "43ca0b0ea252028f11357b8bb084a5e3454d6187d9b9fb87933d3006e3c11ea9");
    assert_ne!(a, b);
    assert_ne!(a, c);
    assert_ne!(b, c);
}

#[test]
fn signature_over_one_domain_fails_against_the_hash_of_another() {
    let mut one = draft(MessageExpiration::Timeout(60), Some(1), 1000);
    let mut two = draft(MessageExpiration::Timeout(60), Some(2), 1000);
    let hash_one = one.prepare_hash(vec![9, 9], 1000).unwrap();
    let hash_two = two.prepare_hash(vec![9, 9], 1000).unwrap();
    let mut secret = decode_hex(SECRET).unwrap();
    let signature = encode_hex(&sign_and_wipe(&mut secret, &hash_one).unwrap());
    assert_eq!(verify_signature(PUBLIC, &encode_hex(&hash_one), &signature, None), Ok(true));
    assert_eq!(verify_signature(PUBLIC, &encode_hex(&hash_two), &signature, None), Ok(false));
}

#[test]
fn building_twice_gives_the_same_hash() {
    let mut first = draft(MessageExpiration::Timeout(60), Some(7), 1000);
    let mut second = draft(MessageExpiration::Timeout(60), Some(7), 1000);
    assert_eq!(first.values(), second.values());
    assert_eq!(first.expire_at(), second.expire_at());
    let a = first.prepare_hash(vec![4, 5, 6], 1001).unwrap();
    let b = second.prepare_hash(vec![4, 5, 6], 1002).unwrap();
    assert_eq!(a, b);
}

#[test]
fn signed_message_holds_the_signature_before_the_body() {
    let mut d = draft(MessageExpiration::Timeout(60), None, 1000);
    d.prepare_hash(vec![1, 2, 3], 1000).unwrap();
    let signature = vec![7u8; 64];
    let signed = finalize_signed_message(d, &signature, &None, 1060).unwrap();
    let mut expected = vec![7u8; 64];
    expected.extend_from_slice(&[1, 2, 3]);
    assert_eq!(signed.bytes, expected);
    assert_eq!(signed.expire_at, 1060);
    assert_eq!(signed.destination, Address::parse(DESTINATION).unwrap());
    assert_eq!(signed.deploy, None);
}

#[test]
fn signature_of_another_length_is_refused() {
    for n in [0usize, 63, 65] {
        let mut d = draft(MessageExpiration::Timeout(60), None, 1000);
        d.prepare_hash(vec![1], 1000).unwrap();
        assert_eq!(
            finalize_signed_message(d, &vec![0u8; n], &None, 1000),
            Err(BridgeError::SignatureLengthMismatch)
        );
    }
}

#[test]
fn draft_without_delay_expires_when_the_clock_advances() {
    let mut d = draft(MessageExpiration::Timeout(0), None, 1000);
    d.prepare_hash(vec![1], 1000).unwrap();
    assert_eq!(
        finalize_signed_message(d, &vec![0u8; 64], &None, 1001),
        Err(BridgeError::MessageExpired(1000))
    );
    // Expiration comes before the form of the signature.
    let mut d = draft(MessageExpiration::Timeout(0), None, 1000);
    d.prepare_hash(vec![1], 1000).unwrap();
    assert_eq!(
        finalize_signed_message(d, &vec![0u8; 3], &None, 1001),
        Err(BridgeError::MessageExpired(1000))
    );
    let mut d = draft(MessageExpiration::Timeout(0), None, 1000);
    d.prepare_hash(vec![1], 1000).unwrap();
    assert!(finalize_signed_message(d, &vec![0u8; 64], &None, 1000).is_ok());
}

#[test]
fn expired_draft_is_terminal() {
    let mut d = draft(MessageExpiration::Timeout(10), None, 1000);
    assert_eq!(d.prepare_hash(vec![1], 1011), Err(BridgeError::MessageExpired(1010)));
    assert_eq!(d.state(), DraftState::Expired);

    let mut d = draft(MessageExpiration::Timeout(10), None, 1000);
    d.prepare_hash(vec![1], 1000).unwrap();
    assert_eq!(
        d.inject_signature(&vec![0u8; 64], &None, 1011),
        Err(BridgeError::MessageExpired(1010))
    );
    assert_eq!(d.state(), DraftState::Expired);
}

#[test]
fn signature_step_then_finalization() {
    let mut d = draft(MessageExpiration::Timeout(10), None, 1000);
    d.prepare_hash(vec![1], 1000).unwrap();
    assert_eq!(d.inject_signature(&vec![0u8; 5], &None, 1000), Err(BridgeError::SignatureLengthMismatch));
    assert_eq!(d.state(), DraftState::HashReady);
    assert_eq!(d.inject_signature(&vec![8u8; 64], &None, 1000), Ok(()));
    assert_eq!(d.state(), DraftState::Signed);
    let mut d2 = draft(MessageExpiration::Timeout(10), None, 1000);
    d2.prepare_hash(vec![1], 1000).unwrap();
    d2.inject_signature(&vec![8u8; 64], &None, 1000).unwrap();
    assert_eq!(d2.finalize(1011), Err(BridgeError::MessageExpired(1010)));
    let signed = d.finalize(1010).unwrap();
    assert_eq!(signed.bytes.len(), 65);
    assert_eq!(signed.bytes[64], 1);
}

fn deploy() -> DeployPayload {
    let mut data = vec![0xaau8; 32];
    data.extend_from_slice(&[1, 2, 3]);
    DeployPayload { code: vec![9, 9], data }
}

#[test]
fn replacement_key_goes_to_the_start_of_the_state() {
    let mut d = build_unsigned_message(
        DESTINATION,
        Some(deploy()),
        &schema(),
        &input(),
        MessageExpiration::Timeout(60),
        None,
        1000,
    )
    .unwrap();
    assert_eq!(d.deploy(), &Some(deploy()));
    d.prepare_hash(vec![1], 1000).unwrap();
    let key = vec![0x55u8; 32];
    let signed = finalize_signed_message(d, &vec![0u8; 64], &Some(key), 1000).unwrap();
    let mut data = vec![0x55u8; 32];
    data.extend_from_slice(&[1, 2, 3]);
    assert_eq!(signed.deploy, Some(DeployPayload { code: vec![9, 9], data }));
}

#[test]
fn replacement_key_faults() {
    assert_eq!(replace_key(&Some(deploy()), &Some(vec![1u8; 31])), Err(BridgeError::TypeMismatch));
    assert_eq!(replace_key(&None, &Some(vec![1u8; 31])), Err(BridgeError::TypeMismatch));
    assert_eq!(replace_key(&None, &Some(vec![1u8; 32])), Ok(None));
    assert_eq!(replace_key(&None, &None), Ok(None));
    assert_eq!(replace_key(&Some(deploy()), &None), Ok(Some(deploy())));
    let short = DeployPayload { code: vec![], data: vec![0u8; 31] };
    assert_eq!(replace_key(&Some(short), &Some(vec![1u8; 32])), Err(BridgeError::TypeMismatch));
    let exact = DeployPayload { code: vec![], data: vec![0u8; 32] };
    assert_eq!(
        replace_key(&Some(exact), &Some(vec![1u8; 32])),
        Ok(Some(DeployPayload { code: vec![], data: vec![1u8; 32] }))
    );
}

fn raw(name: &str, kind: &str) -> abi_bridge::RawParam {
    abi_bridge::RawParam { name: name.to_string(), kind: kind.to_string(), components: vec![] }
}

#[test]
fn external_message_holds_the_signers_key() {
    let params = vec![raw("amount", "uint64")];
    let d = abi_bridge::create_external_message(
        DESTINATION, None, &params, &input(), PUBLIC, 60, Some(4), 1000,
    )
    .unwrap();
    assert_eq!(d.state(), DraftState::Draft);
    assert_eq!(d.public_key(), &Some(decode_hex(PUBLIC).unwrap()));
    assert_eq!(d.expire_at(), 1060);
    assert_eq!(d.signature_id(), Some(4));
    assert_eq!(d.values(), &vec![StrictValue::Int(AbiInt::from_i64(5))]);
}

#[test]
fn external_message_faults_in_order() {
    let good = vec![raw("amount", "uint64")];
    let bad = vec![raw("amount", "uint")];
    let wrong = HostValue::Object(vec![]);
    assert_eq!(
        abi_bridge::create_external_message("x", None, &bad, &wrong, "zz", 60, None, 1000)
            .unwrap_err(),
        BridgeError::SchemaParseError
    );
    assert_eq!(
        abi_bridge::create_external_message("x", None, &good, &wrong, "zz", 60, None, 1000)
            .unwrap_err(),
        BridgeError::InvalidAddress
    );
    assert_eq!(
        abi_bridge::create_external_message(DESTINATION, None, &good, &wrong, "zz", 60, None, 1000)
            .unwrap_err(),
        BridgeError::ParameterMissing("amount".to_string())
    );
    assert_eq!(
        abi_bridge::create_external_message(DESTINATION, None, &good, &input(), "zz", 60, None, 1000)
            .unwrap_err(),
        BridgeError::InvalidEncoding
    );
    assert_eq!(
        abi_bridge::create_external_message(DESTINATION, None, &good, &input(), "0102", 60, None, 1000)
            .unwrap_err(),
        BridgeError::TypeMismatch
    );
}

#[test]
fn replacement_key_takes_the_place_of_the_signers_key() {
    let params = vec![raw("amount", "uint64")];
    let mut d = abi_bridge::create_external_message(
        DESTINATION, None, &params, &input(), PUBLIC, 60, None, 1000,
    )
    .unwrap();
    d.prepare_hash(vec![1], 1000).unwrap();
    d.inject_signature(&vec![0u8; 64], &Some(vec![3u8; 32]), 1000).unwrap();
    assert_eq!(d.public_key(), &Some(vec![3u8; 32]));
}

#[test]
fn external_message_without_signature() {
    let params = vec![raw("amount", "uint64")];
    let d = abi_bridge::create_external_message_without_signature(
        DESTINATION, None, &params, &input(), 30, 1000,
    )
    .unwrap();
    assert_eq!(d.public_key(), &None);
    assert_eq!(d.signature_id(), None);
    assert_eq!(d.expire_at(), 1030);
    assert_eq!(
        abi_bridge::create_external_message_without_signature(
            DESTINATION, None, &vec![raw("a", "nothing")], &input(), 30, 1000,
        )
        .unwrap_err(),
        BridgeError::SchemaParseError
    );
}

#[test]
fn raw_external_message() {
    let m = abi_bridge::create_raw_external_message(DESTINATION, Some(deploy()), vec![1, 2], 99)
        .unwrap();
    assert_eq!(m.destination, Address::parse(DESTINATION).unwrap());
    assert_eq!(m.deploy, Some(deploy()));
    assert_eq!(m.bytes, vec![1, 2]);
    assert_eq!(m.expire_at, 99);
    assert_eq!(
        abi_bridge::create_raw_external_message("0:12", None, vec![], 99),
        Err(BridgeError::InvalidAddress)
    );
}

#[test]
fn request_on_an_expired_draft_fails_in_every_state() {
    // Built without delay at 1000; the clock then reads 1001.
    let mut in_draft = draft(MessageExpiration::Timeout(0), None, 1000);
    assert!(in_draft.is_over(1001));
    assert!(!in_draft.is_over(1000));
    assert_eq!(in_draft.signing_hash(1001), Err(BridgeError::MessageExpired(1000)));
    assert_eq!(
        in_draft.inject_signature(&vec![0u8; 64], &None, 1001),
        Err(BridgeError::MessageExpired(1000))
    );
    assert_eq!(in_draft.state(), DraftState::Expired);
    assert_eq!(in_draft.expire_at(), 1000);
    // Once expired, a draft stays so, whatever the clock reads.
    assert!(in_draft.is_over(0));
    assert_eq!(in_draft.prepare_hash(vec![1], 0), Err(BridgeError::MessageExpired(1000)));
    assert_eq!(in_draft.signing_hash(0), Err(BridgeError::MessageExpired(1000)));
    assert_eq!(in_draft.finalize(0), Err(BridgeError::MessageExpired(1000)));

    let in_draft = draft(MessageExpiration::Timeout(0), None, 1000);
    assert_eq!(in_draft.finalize(1001), Err(BridgeError::MessageExpired(1000)));
    let in_draft = draft(MessageExpiration::Timeout(0), None, 1000);
    assert_eq!(
        finalize_signed_message(in_draft, &vec![0u8; 64], &None, 1001),
        Err(BridgeError::MessageExpired(1000))
    );

    let mut ready = draft(MessageExpiration::Timeout(0), None, 1000);
    ready.prepare_hash(vec![1], 1000).unwrap();
    assert_eq!(ready.prepare_hash(vec![2], 1001), Err(BridgeError::MessageExpired(1000)));
    assert_eq!(ready.state(), DraftState::Expired);

    let mut signed = draft(MessageExpiration::Timeout(0), None, 1000);
    signed.prepare_hash(vec![1], 1000).unwrap();
    signed.inject_signature(&vec![0u8; 64], &None, 1000).unwrap();
    assert_eq!(signed.signing_hash(1000).unwrap().len(), 32);
    assert_eq!(signed.signing_hash(1001), Err(BridgeError::MessageExpired(1000)));
    assert_eq!(
        signed.inject_signature(&vec![0u8; 64], &None, 1001),
        Err(BridgeError::MessageExpired(1000))
    );
    assert_eq!(signed.state(), DraftState::Expired);
}
