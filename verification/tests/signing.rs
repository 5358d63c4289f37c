use abi_bridge::crypto::{
    check_public_key, check_signature, extend_signature, extend_with_signature_id,
    generate_ed25519_key_pair, get_hash, hash_bytes, hash_of_reading, make_ed25519_key_pair,
    make_extended_signature, parse_public_key, parse_signature, sign_and_wipe, sign_data,
    verify_signature,
};
use abi_bridge::encoding::{decode_base64, decode_hex, encode_hex};
use abi_bridge::error::BridgeError;

const SECRET: &str = "9d61b19deffd5a60ba844af492ec2cc44449c5697b326919703bac031cae7f60";
const PUBLIC: &str = "d75a980182b10ab7d54bfed3c964073a0ee172f3daa62325af021a68f707511a";
const SIGNATURE_OF_NOTHING: &str =
    "5VZDAMNgrHKQhuLMgG6CioSHfx645dl02HPgZSJJAVVfuIIVkKM7rMYeOXAc+bRr0lv18FlbviRlUUFDjnoQCw==";
const SIGNATURE_OF_NOTHING_HEX: &str = "e5564300c360ac729086e2cc806e828a84877f1eb8e5d974d873e065224901555fb8821590a33bacc61e39701cf9b46bd25bf5f0595bbe24655141438e7a100b";

#[test]
fn digest_of_known_data() {
    assert_eq!(
        get_hash(""),
        Ok("e3b0c44298fc1c149afbf4c8996fb92427ae41e4649b934ca495991b7852b855".to_string())
    );
    // "YWJj" is base64 for "abc".
    assert_eq!(
        get_hash("YWJj"),
        Ok("ba7816bf8f01cfea414140de5dae2223b00361a396177a9cb410ff61f20015ad".to_string())
    );
    assert_eq!(get_hash("*"), Err(BridgeError::InvalidEncoding));
    assert_eq!(
        encode_hex(&hash_bytes(&b"abc".to_vec())),
        "ba7816bf8f01cfea414140de5dae2223b00361a396177a9cb410ff61f20015ad"
    );
    assert_eq!(hash_of_reading(Err(BridgeError::InvalidEncoding)), Err(BridgeError::InvalidEncoding));
}

#[test]
fn signature_domain_is_appended() {
    assert_eq!(extend_with_signature_id(&vec![1, 2], None), vec![1, 2]);
    assert_eq!(extend_with_signature_id(&vec![1, 2], Some(7)), vec![1, 2, 0, 0, 0, 7]);
    assert_eq!(extend_with_signature_id(&vec![], Some(-1)), vec![255, 255, 255, 255]);
    assert_eq!(extend_with_signature_id(&vec![9], Some(0x01020304)), vec![9, 1, 2, 3, 4]);
    assert_eq!(extend_with_signature_id(&vec![], Some(i32::MIN)), vec![128, 0, 0, 0]);
    assert_eq!(extend_with_signature_id(&vec![], Some(i32::MAX)), vec![127, 255, 255, 255]);
}

#[test]
fn known_signature() {
    assert_eq!(sign_data(SECRET, "", None), Ok(SIGNATURE_OF_NOTHING.to_string()));
    assert_eq!(verify_signature(PUBLIC, "", SIGNATURE_OF_NOTHING, None), Ok(true));
    assert_eq!(verify_signature(PUBLIC, "", SIGNATURE_OF_NOTHING_HEX, None), Ok(true));
    assert_eq!(verify_signature(PUBLIC, "00", SIGNATURE_OF_NOTHING, None), Ok(false));
}

#[test]
fn signature_of_one_domain_fails_in_another() {
    let data = "0102030405";
    let in_one = sign_data(SECRET, data, Some(1)).unwrap();
    let in_two = sign_data(SECRET, data, Some(2)).unwrap();
    let in_none = sign_data(SECRET, data, None).unwrap();
    assert_ne!(in_one, in_two);
    assert_ne!(in_one, in_none);
    assert_eq!(verify_signature(PUBLIC, data, &in_one, Some(1)), Ok(true));
    assert_eq!(verify_signature(PUBLIC, data, &in_one, Some(2)), Ok(false));
    assert_eq!(verify_signature(PUBLIC, data, &in_one, None), Ok(false));
    assert_eq!(verify_signature(PUBLIC, data, &in_none, None), Ok(true));
    assert_eq!(verify_signature(PUBLIC, data, &in_none, Some(1)), Ok(false));
}

#[test]
fn signing_faults() {
    assert_eq!(sign_data(SECRET, "*", None), Err(BridgeError::InvalidEncoding));
    assert_eq!(sign_data("*", "", None), Err(BridgeError::InvalidEncoding));
    assert_eq!(sign_data("0102", "", None), Err(BridgeError::TypeMismatch));
}

#[test]
fn secret_is_wiped_on_every_path() {
    let mut secret = decode_hex(SECRET).unwrap();
    let signature = sign_and_wipe(&mut secret, &vec![]).unwrap();
    assert_eq!(encode_hex(&signature), SIGNATURE_OF_NOTHING_HEX);
    assert_eq!(secret, vec![0u8; 32]);
    let mut short = vec![1u8, 2, 3];
    assert_eq!(sign_and_wipe(&mut short, &vec![]), Err(BridgeError::TypeMismatch));
    assert_eq!(short, vec![0u8; 3]);
}

#[test]
fn verification_faults_in_order() {
    assert_eq!(verify_signature("zz", "*", "*", None), Err(BridgeError::InvalidEncoding));
    assert_eq!(verify_signature("0102", "", SIGNATURE_OF_NOTHING, None), Err(BridgeError::TypeMismatch));
    assert_eq!(verify_signature(PUBLIC, "*", "0102", None), Err(BridgeError::InvalidEncoding));
    assert_eq!(verify_signature(PUBLIC, "", "0102", None), Err(BridgeError::SignatureLengthMismatch));
    assert_eq!(verify_signature(PUBLIC, "", "*", None), Err(BridgeError::InvalidEncoding));
}

#[test]
fn public_key_must_be_a_point_of_the_curve() {
    assert_eq!(parse_public_key(PUBLIC), Ok(decode_hex(PUBLIC).unwrap()));
    // Not every 32 bytes are a point: this one has no square root.
    let no_point = "0200000000000000000000000000000000000000000000000000000000000000";
    assert_eq!(parse_public_key(no_point), Err(BridgeError::TypeMismatch));
    assert_eq!(parse_public_key("d75a"), Err(BridgeError::TypeMismatch));
    assert_eq!(parse_public_key("xyz"), Err(BridgeError::InvalidEncoding));
    assert_eq!(check_public_key(None, true), Err(BridgeError::InvalidEncoding));
    assert_eq!(check_public_key(Some(vec![1]), false), Err(BridgeError::TypeMismatch));
    assert_eq!(check_public_key(Some(vec![1]), true), Ok(vec![1]));
}

#[test]
fn signature_form() {
    let mut bytes = vec![0u8; 64];
    assert_eq!(check_signature(Some(bytes.clone())), Ok(bytes.clone()));
    bytes[63] = 31;
    assert_eq!(check_signature(Some(bytes.clone())), Ok(bytes.clone()));
    bytes[63] = 32;
    assert_eq!(check_signature(Some(bytes.clone())), Err(BridgeError::TypeMismatch));
    assert_eq!(check_signature(Some(vec![0u8; 63])), Err(BridgeError::SignatureLengthMismatch));
    assert_eq!(check_signature(Some(vec![0u8; 65])), Err(BridgeError::SignatureLengthMismatch));
    assert_eq!(check_signature(None), Err(BridgeError::InvalidEncoding));
    assert_eq!(parse_signature(SIGNATURE_OF_NOTHING), Ok(decode_hex(SIGNATURE_OF_NOTHING_HEX).unwrap()));
}

#[test]
fn extended_signature() {
    let forms = extend_signature(SIGNATURE_OF_NOTHING).unwrap();
    assert_eq!(forms.signature, SIGNATURE_OF_NOTHING);
    assert_eq!(forms.signature_hex, SIGNATURE_OF_NOTHING_HEX);
    assert_eq!(forms.high, format!("0x{}", &SIGNATURE_OF_NOTHING_HEX[..64]));
    assert_eq!(forms.low, format!("0x{}", &SIGNATURE_OF_NOTHING_HEX[64..]));
    assert_eq!(extend_signature("0102"), Err(BridgeError::SignatureLengthMismatch));
    assert_eq!(extend_signature("*"), Err(BridgeError::InvalidEncoding));
    let zeros = make_extended_signature(&vec![0u8; 64]);
    assert_eq!(zeros.high, format!("0x{}", "0".repeat(64)));
    assert_eq!(decode_base64(&zeros.signature), Some(vec![0u8; 64]));
}

#[test]
fn fresh_keys_sign_and_verify() {
    let pair = generate_ed25519_key_pair();
    assert_eq!(pair.secret_key.len(), 64);
    assert_eq!(pair.public_key.len(), 64);
    let other = generate_ed25519_key_pair();
    assert_ne!(pair.secret_key, other.secret_key);
    let signature = sign_data(&pair.secret_key, "616263", Some(5)).unwrap();
    assert_eq!(verify_signature(&pair.public_key, "616263", &signature, Some(5)), Ok(true));
    assert_eq!(verify_signature(&other.public_key, "616263", &signature, Some(5)), Ok(false));
}

#[test]
fn fresh_public_key_is_a_valid_key_of_32_bytes() {
    let pair = generate_ed25519_key_pair();
    let key = parse_public_key(&pair.public_key).unwrap();
    assert_eq!(key.len(), 32);
    assert_eq!(decode_hex(&pair.secret_key).unwrap().len(), 32);
    assert_ne!(pair.public_key, pair.secret_key);
}

#[test]
fn key_pair_texts() {
    let pair = make_ed25519_key_pair(&vec![1, 2], &vec![255]);
    assert_eq!(pair.secret_key, "0102");
    assert_eq!(pair.public_key, "ff");
}
