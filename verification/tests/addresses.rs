use abi_bridge::address::{check_address, repack_address, Address};
use abi_bridge::error::BridgeError;

const HASH: &str = "3333333333333333333333333333333333333333333333333333333333333333";

#[test]
fn address_in_two_part_form_is_accepted() {
    assert!(check_address(&format!("0:{}", HASH)));
    assert!(check_address(&format!("-1:{}", HASH)));
    assert!(check_address(&format!("127:{}", HASH)));
    assert!(check_address(&format!("-128:{}", HASH)));
}

#[test]
fn malformed_address_is_rejected() {
    assert!(!check_address(""));
    assert!(!check_address(HASH));
    assert!(!check_address(&format!(":{}", HASH)));
    assert!(!check_address(&format!("0:{}", &HASH[1..])));
    assert!(!check_address(&format!("0:{}0", HASH)));
    assert!(!check_address(&format!("128:{}", HASH)));
    assert!(!check_address(&format!("-129:{}", HASH)));
    assert!(!check_address(&format!("0:{}g", &HASH[1..])));
    assert!(!check_address(&format!("0;{}", HASH)));
    assert!(!check_address(&format!("a:{}", HASH)));
    assert!(!check_address(&format!("0:0:{}", HASH)));
    assert!(!check_address(&format!("é:{}", HASH)));
}

#[test]
fn address_is_repacked_in_canonical_form() {
    let upper = "ABCDEF0123456789ABCDEF0123456789ABCDEF0123456789ABCDEF0123456789";
    let lower = "abcdef0123456789abcdef0123456789abcdef0123456789abcdef0123456789";
    assert_eq!(repack_address(&format!("+007:{}", upper)), Ok(format!("7:{}", lower)));
    assert_eq!(repack_address(&format!("-0:{}", upper)), Ok(format!("0:{}", lower)));
    assert_eq!(repack_address(&format!("-1:{}", lower)), Ok(format!("-1:{}", lower)));
    assert_eq!(repack_address("nonsense"), Err(BridgeError::InvalidAddress));
}

#[test]
fn address_parts() {
    let a = Address::parse(&format!("-1:{}", HASH)).unwrap();
    assert_eq!(a.workchain, -1);
    assert_eq!(a.hash, vec![0x33u8; 32]);
    assert_eq!(a.to_text(), format!("-1:{}", HASH));
}
