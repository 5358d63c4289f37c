use abi_bridge::encoding::{
    decode_base64, decode_hex, encode_base64, encode_hex, first_reading, parse_base64_or_hex_bytes,
    parse_hex_or_base64_bytes,
};
use abi_bridge::error::BridgeError;

#[test]
fn hex_text_is_read_in_either_case() {
    assert_eq!(decode_hex("0aFf10"), Some(vec![10, 255, 16]));
    assert_eq!(decode_hex(""), Some(vec![]));
}

#[test]
fn hex_text_of_odd_length_or_other_characters_is_refused() {
    assert_eq!(decode_hex("abc"), None);
    assert_eq!(decode_hex("zz"), None);
    assert_eq!(decode_hex("ab "), None);
    assert_eq!(decode_hex("éé"), None);
}

#[test]
fn hex_text_is_written_in_lower_case() {
    assert_eq!(encode_hex(&[1, 2, 3, 15, 16, 255]), "0102030f10ff");
    assert_eq!(encode_hex(&[]), "");
}

#[test]
fn base64_text_is_written_padded() {
    assert_eq!(encode_base64(b"abc"), "YWJj");
    assert_eq!(encode_base64(&[1, 2, 3, 4]), "AQIDBA==");
    assert_eq!(encode_base64(&[]), "");
}

#[test]
fn base64_text_is_read_back() {
    assert_eq!(decode_base64("AQIDBA=="), Some(vec![1, 2, 3, 4]));
    assert_eq!(decode_base64("YWJj"), Some(b"abc".to_vec()));
    assert_eq!(decode_base64("!!!"), None);
    for n in 0..40usize {
        let bytes: Vec<u8> = (0..n).map(|i| (i * 37 % 256) as u8).collect();
        assert_eq!(decode_base64(&encode_base64(&bytes)), Some(bytes));
    }
}

#[test]
fn hexadecimal_reading_comes_first_where_asked() {
    // "abcd" is both: two bytes in hexadecimal, three in base64.
    assert_eq!(parse_hex_or_base64_bytes("abcd"), Ok(vec![0xab, 0xcd]));
    assert_eq!(parse_base64_or_hex_bytes("abcd"), Ok(vec![0x69, 0xb7, 0x1d]));
    assert_eq!(parse_hex_or_base64_bytes("AQIDBA=="), Ok(vec![1, 2, 3, 4]));
    // Base64 text needs no padding: three characters write two bytes.
    assert_eq!(parse_base64_or_hex_bytes("0a0"), Ok(vec![209, 173]));
    // "0a" leaves bits over in base64, and is one byte in hexadecimal.
    assert_eq!(parse_base64_or_hex_bytes("0a"), Ok(vec![10]));
    assert_eq!(parse_base64_or_hex_bytes("*"), Err(BridgeError::InvalidEncoding));
    assert_eq!(parse_hex_or_base64_bytes("*"), Err(BridgeError::InvalidEncoding));
}

#[test]
fn first_reading_wins() {
    assert_eq!(first_reading(Some(vec![1]), Some(vec![2])), Ok(vec![1]));
    assert_eq!(first_reading(None, Some(vec![2])), Ok(vec![2]));
    assert_eq!(first_reading(None, None), Err(BridgeError::InvalidEncoding));
}
