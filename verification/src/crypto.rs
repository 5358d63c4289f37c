//! Hashes and signatures: what is signed, the signing helper that wipes its
//! key, and the texts of keys and signatures.

use vstd::prelude::*;
use vstd::string::StringExecFns;
use crate::encoding::{lemma_hex_round_trip, base64_encoded, base64_or_hex, decode_hex, encode_base64, encode_hex, hex_decoded, hex_or_base64, hex_text, is_hex_text, parse_base64_or_hex_bytes, parse_hex_or_base64_bytes};
use crate::error::{result_view, BridgeError, ErrorModel};
use crate::text::{ascii_codes, copy_range};

verus! {

/// What `sha2::Sha256::digest` returns for the given bytes.
pub uninterp spec fn sha256_digest(data: Seq<u8>) -> Seq<u8>;

/// What signing a message with a secret key of 32 bytes returns:
/// `ed25519_dalek::Keypair::sign` with the pair of that secret.
pub uninterp spec fn ed25519_signature(secret: Seq<u8>, message: Seq<u8>) -> Seq<u8>;

/// The public key of a secret key of 32 bytes: what
/// `ed25519_dalek::PublicKey::from` makes of the secret.
pub uninterp spec fn ed25519_public_key(secret: Seq<u8>) -> Seq<u8>;

/// Whether `ed25519_dalek::PublicKey::from_bytes` accepts the bytes as a
/// public key.
pub uninterp spec fn ed25519_key_valid(key: Seq<u8>) -> bool;

/// Whether `ed25519_dalek::PublicKey::verify` accepts the signature of the
/// message under the public key.
pub uninterp spec fn ed25519_verifies(key: Seq<u8>, message: Seq<u8>, signature: Seq<u8>) -> bool;

/// `sha2::Sha256::digest` returns the digest of the bytes, which has 32
/// bytes.
#[verifier::external_body]
pub(crate) fn sha256(data: &[u8]) -> (r: Vec<u8>)
    ensures
        r@ == sha256_digest(data@),
        r@.len() == 32,
{
    <sha2::Sha256 as sha2::Digest>::digest(data).to_vec()
}

/// `ed25519_dalek::SecretKey::from_bytes` takes exactly 32 bytes; the pair
/// of that secret and its public key signs the message with
/// `ed25519_dalek::Keypair::sign`, which gives 64 bytes and depends on the
/// secret and the message alone.
#[verifier::external_body]
pub(crate) fn ed25519_sign(secret: &[u8], message: &[u8]) -> (r: Option<Vec<u8>>)
    ensures
        r is Some <==> secret@.len() == 32,
        r matches Some(signature) ==> signature@ == ed25519_signature(secret@, message@)
            && signature@.len() == 64,
{
    let secret = ed25519_dalek::SecretKey::from_bytes(secret).ok()?;
    let public = ed25519_dalek::PublicKey::from(&secret);
    let pair = ed25519_dalek::Keypair { secret, public };
    Some(ed25519_dalek::Signer::sign(&pair, message).to_bytes().to_vec())
}

/// `ed25519_dalek::PublicKey::from_bytes` accepts 32 bytes that are a point
/// of the curve, and nothing else.
#[verifier::external_body]
pub(crate) fn ed25519_key_is_valid(key: &[u8]) -> (r: bool)
    ensures
        r == ed25519_key_valid(key@),
        r ==> key@.len() == 32,
{
    ed25519_dalek::PublicKey::from_bytes(key).is_ok()
}

/// `ed25519_dalek::PublicKey::verify` checks the signature of the message
/// under the key; bytes that are no key or no signature verify nothing.
#[verifier::external_body]
pub(crate) fn ed25519_verify(key: &[u8], message: &[u8], signature: &[u8]) -> (r: bool)
    ensures
        r == ed25519_verifies(key@, message@, signature@),
{
    match (
        ed25519_dalek::PublicKey::from_bytes(key),
        ed25519_dalek::Signature::from_bytes(signature),
    ) {
        (Ok(key), Ok(signature)) => ed25519_dalek::Verifier::verify(&key, message, &signature)
            .is_ok(),
        _ => false,
    }
}

/// `ed25519_dalek::Keypair::generate` with `rand::thread_rng` draws a secret
/// of 32 bytes and derives its public key with `ed25519_dalek::PublicKey::from`;
/// that key has 32 bytes and is one that `PublicKey::from_bytes` accepts.
#[verifier::external_body]
pub(crate) fn ed25519_generate() -> (r: (Vec<u8>, Vec<u8>))
    ensures
        r.0@.len() == 32,
        r.1@.len() == 32,
        r.1@ == ed25519_public_key(r.0@),
        ed25519_key_valid(r.1@),
{
    let pair = ed25519_dalek::Keypair::generate(&mut rand::thread_rng());
    (pair.secret.to_bytes().to_vec(), pair.public.to_bytes().to_vec())
}

/// `zeroize::Zeroize::zeroize` on the bytes of a buffer overwrites every one
/// of them with zero, in place.
#[verifier::external_body]
pub(crate) fn wipe(buffer: &mut Vec<u8>)
    ensures
        final(buffer)@ == zeros(old(buffer)@.len()),
{
    zeroize::Zeroize::zeroize(buffer.as_mut_slice())
}

/// As many bytes as asked for, all zero.
pub open spec fn zeros(n: nat) -> Seq<u8> {
    Seq::new(n, |i: int| 0u8)
}

/// The number of a signature domain as an unsigned number of 32 bits, in
/// two's complement.
pub open spec fn domain_code(id: i32) -> nat {
    if id >= 0 {
        id as nat
    } else {
        (id + 0x1_0000_0000) as nat
    }
}

/// The four bytes of a signature domain's number, the most significant
/// first.
pub open spec fn domain_bytes(id: i32) -> Seq<u8> {
    let code = domain_code(id);
    seq![
        (code / 0x100_0000) as u8,
        (code / 0x1_0000 % 0x100) as u8,
        (code / 0x100 % 0x100) as u8,
        (code % 0x100) as u8,
    ]
}

/// The bytes that are hashed or signed for the given data: the data, and
/// after them the bytes of the signature domain where one is configured.
pub open spec fn signing_payload(data: Seq<u8>, signature_id: Option<i32>) -> Seq<u8> {
    match signature_id {
        Some(id) => data + domain_bytes(id),
        None => data,
    }
}

/// Different signature domains have different bytes.
pub proof fn lemma_domain_bytes_differ(a: i32, b: i32)
    requires
        a != b,
    ensures
        domain_bytes(a) != domain_bytes(b),
{
    let x = domain_code(a);
    let y = domain_code(b);
    let p = domain_bytes(a);
    let q = domain_bytes(b);
    if p == q {
        assert(p[0] == q[0] && p[1] == q[1] && p[2] == q[2] && p[3] == q[3]);
        assert(x == (x / 0x100_0000) * 0x100_0000 + (x / 0x1_0000 % 0x100) * 0x1_0000 + (x / 0x100
            % 0x100) * 0x100 + x % 0x100);
        assert(y == (y / 0x100_0000) * 0x100_0000 + (y / 0x1_0000 % 0x100) * 0x1_0000 + (y / 0x100
            % 0x100) * 0x100 + y % 0x100);
        assert(x == y);
    }
}

/// Signature-domain separation: the same data under two different
/// signature domains, or under a domain and under none, give different bytes
/// to hash and to sign.
pub proof fn lemma_domains_are_separate(data: Seq<u8>, a: i32, b: i32)
    ensures
        a != b ==> signing_payload(data, Some(a)) != signing_payload(data, Some(b)),
        signing_payload(data, Some(a)) != signing_payload(data, None),
{
    if a != b {
        lemma_domain_bytes_differ(a, b);
        let p = signing_payload(data, Some(a));
        let q = signing_payload(data, Some(b));
        if p == q {
            assert(domain_bytes(a) =~= p.skip(data.len() as int));
            assert(domain_bytes(b) =~= q.skip(data.len() as int));
        }
    }
    assert(signing_payload(data, Some(a)).len() == data.len() + 4);
}

/// The bytes to hash or sign for the given data: the data, extended with
/// the signature domain where one is configured.
pub fn extend_with_signature_id(data: &Vec<u8>, signature_id: Option<i32>) -> (r: Vec<u8>)
    ensures
        r@ == signing_payload(data@, signature_id),
{
    let mut out = copy_range(data, 0, data.len());
    assert(out@ =~= data@);
    match signature_id {
        Some(id) => {
            let code: u64 = if id >= 0 {
                id as u64
            } else {
                (id as i64 + 0x1_0000_0000) as u64
            };
            out.push((code / 0x100_0000) as u8);
            out.push((code / 0x1_0000 % 0x100) as u8);
            out.push((code / 0x100 % 0x100) as u8);
            out.push((code % 0x100) as u8);
            assert(out@ =~= data@ + domain_bytes(id));
        },
        None => {},
    }
    out
}

/// The digest of the bytes, 32 bytes.
pub fn hash_bytes(data: &Vec<u8>) -> (r: Vec<u8>)
    ensures
        r@ == sha256_digest(data@),
        r@.len() == 32,
{
    sha256(data.as_slice())
}

/// The hexadecimal text of the digest of the bytes that were read from a
/// text.
pub fn hash_of_reading(reading: Result<Vec<u8>, BridgeError>) -> (r: Result<String, BridgeError>)
    ensures
        match reading {
            Ok(data) => r matches Ok(text) && text@ == hex_text(sha256_digest(data@)),
            Err(e) => r matches Err(f) && f@ == e@,
        },
{
    match reading {
        Ok(data) => Ok(encode_hex(hash_bytes(&data).as_slice())),
        Err(e) => Err(e),
    }
}

/// The digest of the bytes that a text writes, in base64 or, failing that,
/// hexadecimal text; the digest is given as hexadecimal text. A text that is
/// neither is an `InvalidEncoding`.
pub fn get_hash(data: &str) -> (r: Result<String, BridgeError>)
    ensures
        match base64_or_hex(data@) {
            Some(bytes) => r matches Ok(text) && text@ == hex_text(sha256_digest(bytes)),
            None => r matches Err(e) && e@ == ErrorModel::InvalidEncoding,
        },
{
    hash_of_reading(parse_base64_or_hex_bytes(data))
}

/// Signs a message with the secret key in the buffer, and wipes the buffer:
/// on every path every byte of it is overwritten with zero. A key that has
/// not 32 bytes is a `TypeMismatch`.
pub fn sign_and_wipe(secret: &mut Vec<u8>, message: &Vec<u8>) -> (r: Result<Vec<u8>, BridgeError>)
    ensures
        final(secret)@ == zeros(old(secret)@.len()),
        old(secret)@.len() == 32 ==> (r matches Ok(signature) && signature@ == ed25519_signature(
            old(secret)@,
            message@,
        ) && signature@.len() == 64),
        old(secret)@.len() != 32 ==> (r matches Err(e) && e@ == ErrorModel::TypeMismatch),
{
    let signed = ed25519_sign(secret.as_slice(), message.as_slice());
    wipe(secret);
    match signed {
        Some(signature) => Ok(signature),
        None => Err(BridgeError::TypeMismatch),
    }
}

/// What signing gives: the base64 text of the signature of the data,
/// extended with the signature domain, under the secret key. Data or a key
/// that is neither hexadecimal nor base64 text is an `InvalidEncoding`, a key
/// that has not 32 bytes a `TypeMismatch`.
pub open spec fn signed_data(secret_key: Seq<char>, data: Seq<char>, signature_id: Option<i32>) -> Result<
    Seq<char>,
    ErrorModel,
> {
    match hex_or_base64(data) {
        None => Err(ErrorModel::InvalidEncoding),
        Some(message) => match hex_or_base64(secret_key) {
            None => Err(ErrorModel::InvalidEncoding),
            Some(secret) => if secret.len() != 32 {
                Err(ErrorModel::TypeMismatch)
            } else {
                Ok(base64_encoded(ed25519_signature(secret, signing_payload(message, signature_id))))
            },
        },
    }
}

/// Signs data with a secret key, both given as hexadecimal or base64 text,
/// and returns the signature as base64 text. The bytes of the key are wiped
/// before the function returns.
pub fn sign_data(secret_key: &str, data: &str, signature_id: Option<i32>) -> (r: Result<
    String,
    BridgeError,
>)
    ensures
        result_view(r) == signed_data(secret_key@, data@, signature_id),
{
    let message = match parse_hex_or_base64_bytes(data) {
        Ok(message) => message,
        Err(e) => {
            return Err(e);
        },
    };
    let mut secret = match parse_hex_or_base64_bytes(secret_key) {
        Ok(secret) => secret,
        Err(e) => {
            return Err(e);
        },
    };
    let payload = extend_with_signature_id(&message, signature_id);
    match sign_and_wipe(&mut secret, &payload) {
        Ok(signature) => Ok(encode_base64(signature.as_slice())),
        Err(e) => Err(e),
    }
}

/// Whether bytes are a signature in form: 64 bytes, the three highest bits
/// of the last one unset.
pub open spec fn is_signature(bytes: Seq<u8>) -> bool {
    bytes.len() == 64 && bytes[63] < 32
}

/// The signature that a reading of a text gives: the bytes, where they have
/// the form of a signature. Another number of bytes is a
/// `SignatureLengthMismatch`, 64 bytes of another form a `TypeMismatch`.
pub open spec fn checked_signature(reading: Option<Seq<u8>>) -> Result<Seq<u8>, ErrorModel> {
    match reading {
        None => Err(ErrorModel::InvalidEncoding),
        Some(bytes) => if bytes.len() != 64 {
            Err(ErrorModel::SignatureLengthMismatch)
        } else if bytes[63] >= 32 {
            Err(ErrorModel::TypeMismatch)
        } else {
            Ok(bytes)
        },
    }
}

/// Holds the bytes read from a text against the form of a signature.
pub fn check_signature(reading: Option<Vec<u8>>) -> (r: Result<Vec<u8>, BridgeError>)
    ensures
        result_view(r) == checked_signature(
            match reading {
                Some(bytes) => Some(bytes@),
                None => None,
            },
        ),
{
    match reading {
        None => Err(BridgeError::InvalidEncoding),
        Some(bytes) => if bytes.len() != 64 {
            Err(BridgeError::SignatureLengthMismatch)
        } else if bytes[63] >= 32 {
            Err(BridgeError::TypeMismatch)
        } else {
            Ok(bytes)
        },
    }
}

/// Reads a signature from hexadecimal or base64 text.
pub fn parse_signature(signature: &str) -> (r: Result<Vec<u8>, BridgeError>)
    ensures
        result_view(r) == checked_signature(hex_or_base64(signature@)),
{
    match parse_hex_or_base64_bytes(signature) {
        Ok(bytes) => check_signature(Some(bytes)),
        Err(_) => check_signature(None),
    }
}

/// The public key that a text gives: the bytes of its hexadecimal digits,
/// where they are a public key. A text that is not hexadecimal is an
/// `InvalidEncoding`, bytes that are no key a `TypeMismatch`.
pub open spec fn checked_public_key(text: Seq<char>) -> Result<Seq<u8>, ErrorModel> {
    if !is_hex_text(text) {
        Err(ErrorModel::InvalidEncoding)
    } else if !ed25519_key_valid(hex_decoded(ascii_codes(text))) {
        Err(ErrorModel::TypeMismatch)
    } else {
        Ok(hex_decoded(ascii_codes(text)))
    }
}

/// Holds bytes against the form of a public key, given whether they are a
/// point of the curve.
pub fn check_public_key(bytes: Option<Vec<u8>>, valid: bool) -> (r: Result<Vec<u8>, BridgeError>)
    ensures
        match bytes {
            None => r matches Err(e) && e@ == ErrorModel::InvalidEncoding,
            Some(key) => if valid {
                r matches Ok(k) && k@ == key@
            } else {
                r matches Err(e) && e@ == ErrorModel::TypeMismatch
            },
        },
{
    match bytes {
        None => Err(BridgeError::InvalidEncoding),
        Some(key) => if valid {
            Ok(key)
        } else {
            Err(BridgeError::TypeMismatch)
        },
    }
}

/// Reads a public key from hexadecimal text.
pub fn parse_public_key(public_key: &str) -> (r: Result<Vec<u8>, BridgeError>)
    ensures
        result_view(r) == checked_public_key(public_key@),
        r matches Ok(key) ==> key@.len() == 32,
{
    let bytes = decode_hex(public_key);
    let valid = match &bytes {
        Some(key) => ed25519_key_is_valid(key.as_slice()),
        None => false,
    };
    check_public_key(bytes, valid)
}

/// The hexadecimal text of a public key, or a `TypeMismatch` for bytes that
/// are no key.
pub fn encode_public_key(key: &Vec<u8>) -> (r: Result<String, BridgeError>)
    ensures
        ed25519_key_valid(key@) ==> (r matches Ok(text) && text@ == hex_text(key@)),
        !ed25519_key_valid(key@) ==> (r matches Err(e) && e@ == ErrorModel::TypeMismatch),
        r matches Ok(text) ==> key@.len() == 32 && text@.len() == 64 && is_hex_text(text@)
            && hex_decoded(ascii_codes(text@)) == key@,
{
    if ed25519_key_is_valid(key.as_slice()) {
        proof {
            lemma_hex_round_trip(key@);
        }
        Ok(encode_hex(key.as_slice()))
    } else {
        Err(BridgeError::TypeMismatch)
    }
}

/// What verifying gives: whether the signature of the data, extended with
/// the signature domain, verifies under the public key; or the first fault
/// among the key, the data and the signature, in that order.
pub open spec fn verified_signature(
    public_key: Seq<char>,
    data: Seq<char>,
    signature: Seq<char>,
    signature_id: Option<i32>,
) -> Result<bool, ErrorModel> {
    match checked_public_key(public_key) {
        Err(e) => Err(e),
        Ok(key) => match hex_or_base64(data) {
            None => Err(ErrorModel::InvalidEncoding),
            Some(message) => match checked_signature(hex_or_base64(signature)) {
                Err(e) => Err(e),
                Ok(bytes) => Ok(
                    ed25519_verifies(key, signing_payload(message, signature_id), bytes),
                ),
            },
        },
    }
}

/// Verifies the signature of data under a public key. The key is
/// hexadecimal text, the data and the signature hexadecimal or base64 text.
pub fn verify_signature(
    public_key: &str,
    data: &str,
    signature: &str,
    signature_id: Option<i32>,
) -> (r: Result<bool, BridgeError>)
    ensures
        match r {
            Ok(valid) => verified_signature(public_key@, data@, signature@, signature_id) == Ok::<
                bool,
                ErrorModel,
            >(valid),
            Err(e) => verified_signature(public_key@, data@, signature@, signature_id) == Err::<
                bool,
                ErrorModel,
            >(e@),
        },
{
    let key = match parse_public_key(public_key) {
        Ok(key) => key,
        Err(e) => {
            return Err(e);
        },
    };
    let message = match parse_hex_or_base64_bytes(data) {
        Ok(message) => message,
        Err(e) => {
            return Err(e);
        },
    };
    let bytes = match parse_signature(signature) {
        Ok(bytes) => bytes,
        Err(e) => {
            return Err(e);
        },
    };
    let payload = extend_with_signature_id(&message, signature_id);
    Ok(ed25519_verify(key.as_slice(), payload.as_slice(), bytes.as_slice()))
}

/// A signature in the forms that callers ask for.
#[derive(Debug, PartialEq, Eq)]
pub struct ExtendedSignature {
    /// The signature as base64 text.
    pub signature: String,
    /// The signature as hexadecimal text.
    pub signature_hex: String,
    /// The first 32 bytes as hexadecimal text after `0x`.
    pub high: String,
    /// The last 32 bytes as hexadecimal text after `0x`.
    pub low: String,
}

/// The forms of a signature of 64 bytes.
pub fn make_extended_signature(signature: &Vec<u8>) -> (r: ExtendedSignature)
    requires
        signature@.len() == 64,
    ensures
        r.signature@ == base64_encoded(signature@),
        r.signature_hex@ == hex_text(signature@),
        r.high@ == "0x"@ + hex_text(signature@.subrange(0, 32)),
        r.low@ == "0x"@ + hex_text(signature@.subrange(32, 64)),
{
    let first = copy_range(signature, 0, 32);
    let second = copy_range(signature, 32, 64);
    let mut high = String::from_str("0x");
    high.append(encode_hex(first.as_slice()).as_str());
    let mut low = String::from_str("0x");
    low.append(encode_hex(second.as_slice()).as_str());
    ExtendedSignature {
        signature: encode_base64(signature.as_slice()),
        signature_hex: encode_hex(signature.as_slice()),
        high,
        low,
    }
}

/// Reads a signature from hexadecimal or base64 text and gives it in the
/// forms that callers ask for.
pub fn extend_signature(signature: &str) -> (r: Result<ExtendedSignature, BridgeError>)
    ensures
        match checked_signature(hex_or_base64(signature@)) {
            Ok(bytes) => r matches Ok(forms) && forms.signature@ == base64_encoded(bytes)
                && forms.signature_hex@ == hex_text(bytes) && forms.high@ == "0x"@ + hex_text(
                bytes.subrange(0, 32),
            ) && forms.low@ == "0x"@ + hex_text(bytes.subrange(32, 64)),
            Err(e) => r matches Err(f) && f@ == e,
        },
{
    match parse_signature(signature) {
        Ok(bytes) => Ok(make_extended_signature(&bytes)),
        Err(e) => Err(e),
    }
}

/// A pair of keys as hexadecimal texts.
#[derive(Debug, PartialEq, Eq)]
pub struct Ed25519KeyPair {
    pub public_key: String,
    pub secret_key: String,
}

/// The texts of a pair of keys.
pub fn make_ed25519_key_pair(secret: &Vec<u8>, public: &Vec<u8>) -> (r: Ed25519KeyPair)
    ensures
        r.secret_key@ == hex_text(secret@),
        r.public_key@ == hex_text(public@),
{
    Ed25519KeyPair {
        public_key: encode_hex(public.as_slice()),
        secret_key: encode_hex(secret.as_slice()),
    }
}

/// A fresh pair of keys: the texts of a secret of 32 bytes and of the public
/// key that belongs to it, which is a valid key.
pub fn generate_ed25519_key_pair() -> (r: Ed25519KeyPair)
    ensures
        exists|secret: Seq<u8>|
            secret.len() == 32 && r.secret_key@ == hex_text(secret) && r.public_key@ == hex_text(
                ed25519_public_key(secret),
            ) && ed25519_key_valid(ed25519_public_key(secret)),
{
    let (secret, public) = ed25519_generate();
    make_ed25519_key_pair(&secret, &public)
}

} // verus!
