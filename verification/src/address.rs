//! Account addresses in their two-part text form: the workchain as a decimal
//! number, a colon, and the 32 bytes of the account's hash as 64 hexadecimal
//! digits.

use vstd::prelude::*;
use vstd::string::StringExecFns;
use vstd::utf8::is_ascii_chars;
use crate::encoding::{hex_decode, hex_decoded, hex_encode, hex_encoded, is_hex_bytes, lemma_hex_round_trip};
use crate::error::BridgeError;
use crate::number::{decimal_bytes, is_literal_bytes, lemma_decimal_round_trip, literal_bytes_value, AbiInt};
use crate::text::{ascii_codes, ascii_text, copy_range, is_ascii_bytes, lemma_ascii_round_trip, lemma_ascii_text_concat, text_bytes, text_from_bytes};

verus! {

/// An account address: the workchain and the account's hash.
#[derive(Debug, PartialEq, Eq)]
pub struct Address {
    pub workchain: i8,
    pub hash: Vec<u8>,
}

/// An address as a mathematical value.
pub struct AddressModel {
    pub workchain: int,
    pub hash: Seq<u8>,
}

impl View for Address {
    type V = AddressModel;

    open spec fn view(&self) -> AddressModel {
        AddressModel { workchain: self.workchain as int, hash: self.hash@ }
    }
}

impl AddressModel {
    /// Whether the workchain fits eight bits and the hash has 32 bytes.
    pub open spec fn wf(self) -> bool {
        -128 <= self.workchain <= 127 && self.hash.len() == 32
    }
}

/// Whether the bytes are an address: a decimal literal between -128 and 127,
/// a colon, and 64 hexadecimal digits.
pub open spec fn is_address_bytes(s: Seq<u8>) -> bool {
    &&& s.len() >= 66
    &&& s[s.len() - 65] == 58
    &&& is_hex_bytes(s.skip(s.len() - 64))
    &&& is_literal_bytes(s.take(s.len() - 65))
    &&& -128 <= literal_bytes_value(s.take(s.len() - 65)) <= 127
}

/// The address that the bytes write.
pub open spec fn address_bytes_value(s: Seq<u8>) -> AddressModel {
    AddressModel {
        workchain: literal_bytes_value(s.take(s.len() - 65)),
        hash: hex_decoded(s.skip(s.len() - 64)),
    }
}

/// Whether a text is an address.
pub open spec fn is_address_text(text: Seq<char>) -> bool {
    is_ascii_chars(text) && is_address_bytes(ascii_codes(text))
}

/// The address that a text writes, where it is an address.
pub open spec fn address_value(text: Seq<char>) -> AddressModel {
    address_bytes_value(ascii_codes(text))
}

/// The canonical bytes of an address: the workchain without sign or with
/// `-`, a colon, and the hash in lower-case hexadecimal digits.
pub open spec fn address_bytes(a: AddressModel) -> Seq<u8> {
    decimal_bytes(a.workchain) + seq![58u8] + hex_encoded(a.hash)
}

/// The canonical text of an address.
pub open spec fn address_text(a: AddressModel) -> Seq<char> {
    ascii_text(address_bytes(a))
}

/// The canonical text of a well-formed address is an address text that
/// writes the same address.
pub proof fn lemma_address_round_trip(a: AddressModel)
    requires
        a.wf(),
    ensures
        is_ascii_bytes(address_bytes(a)),
        is_address_bytes(address_bytes(a)),
        address_bytes_value(address_bytes(a)) == a,
        is_address_text(address_text(a)),
        address_value(address_text(a)) == a,
{
    let d = decimal_bytes(a.workchain);
    let h = hex_encoded(a.hash);
    let s = address_bytes(a);
    lemma_decimal_round_trip(a.workchain);
    lemma_hex_round_trip(a.hash);
    assert(s.take(s.len() - 65) =~= d);
    assert(s.skip(s.len() - 64) =~= h);
    assert(s[s.len() - 65] == 58);
    lemma_ascii_text_concat(d, seq![58u8]);
    lemma_ascii_text_concat(d + seq![58u8], h);
    assert(is_ascii_bytes(seq![58u8]));
    lemma_ascii_round_trip(Seq::<char>::empty(), s);
}

/// An address text writes a well-formed address.
pub proof fn lemma_address_value_wf(s: Seq<u8>)
    requires
        is_address_bytes(s),
    ensures
        address_bytes_value(s).wf(),
{
}

impl Address {
    /// Reads an address from its text. A text that is no address is an
    /// `InvalidAddress`.
    pub fn parse(text: &str) -> (r: Result<Address, BridgeError>)
        ensures
            is_address_text(text@) ==> (r matches Ok(a) && a@ == address_value(text@) && a@.wf()),
            !is_address_text(text@) ==> r == Err::<Address, BridgeError>(
                BridgeError::InvalidAddress,
            ),
    {
        let bytes = match text_bytes(text) {
            Some(bytes) => bytes,
            None => {
                return Err(BridgeError::InvalidAddress);
            },
        };
        let n = bytes.len();
        if n < 66 || bytes[n - 65] != 58 {
            return Err(BridgeError::InvalidAddress);
        }
        let head = copy_range(&bytes, 0, n - 65);
        let tail = copy_range(&bytes, n - 64, n);
        assert(head@ =~= bytes@.take(n - 65));
        assert(tail@ =~= bytes@.skip(n - 64));
        let hash = match hex_decode(tail.as_slice()) {
            Some(hash) => hash,
            None => {
                return Err(BridgeError::InvalidAddress);
            },
        };
        let workchain = match AbiInt::parse_decimal_bytes(&head) {
            Ok(number) => match number.to_i8() {
                Some(workchain) => workchain,
                None => {
                    return Err(BridgeError::InvalidAddress);
                },
            },
            Err(_) => {
                return Err(BridgeError::InvalidAddress);
            },
        };
        Ok(Address { workchain, hash })
    }

    /// The canonical text of the address.
    pub fn to_text(&self) -> (r: String)
        ensures
            r@ == address_text(self@),
    {
        let mut out = AbiInt::from_i64(self.workchain as i64).to_decimal_bytes();
        out.push(58);
        proof {
            lemma_decimal_round_trip(self.workchain as int);
            lemma_ascii_text_concat(decimal_bytes(self.workchain as int), seq![58u8]);
            assert(is_ascii_bytes(seq![58u8]));
        }
        let mut text = text_from_bytes(&out);
        let digits = hex_encode(self.hash.as_slice());
        text.append(digits.as_str());
        proof {
            lemma_ascii_text_concat(
                decimal_bytes(self.workchain as int) + seq![58u8],
                hex_encoded(self.hash@),
            );
        }
        text
    }
}

/// Whether a text is an address in the two-part form.
pub fn check_address(address: &str) -> (r: bool)
    ensures
        r == is_address_text(address@),
{
    Address::parse(address).is_ok()
}

/// The canonical text of the address that a text writes. A text that is no
/// address is an `InvalidAddress`.
pub fn repack_address(address: &str) -> (r: Result<String, BridgeError>)
    ensures
        is_address_text(address@) ==> (r matches Ok(s) && s@ == address_text(
            address_value(address@),
        )),
        !is_address_text(address@) ==> r == Err::<String, BridgeError>(
            BridgeError::InvalidAddress,
        ),
{
    match Address::parse(address) {
        Ok(a) => Ok(a.to_text()),
        Err(e) => Err(e),
    }
}

} // verus!
