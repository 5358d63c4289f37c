//! Conversion between loosely typed host values and strictly typed contract
//! values, and the life cycle of a message that is signed by an outside
//! signer.

pub mod address;
pub mod codec;
pub mod crypto;
pub mod encoding;
pub mod error;
pub mod grammar;
pub mod message;
pub mod number;
pub mod round_trip;
pub mod scalar;
pub mod schema;
pub mod text;
pub mod transaction;
pub mod types;
pub mod value;
pub mod wide;

pub use address::{check_address, repack_address, Address};
pub use codec::{decode, encode};
pub use crypto::{
    extend_signature, generate_ed25519_key_pair, get_hash, sign_data, verify_signature,
};
pub use error::BridgeError;
pub use message::{
    build_unsigned_message, create_external_message, create_external_message_without_signature,
    create_raw_external_message, finalize_signed_message, DeployPayload, DraftState,
    MessageExpiration, SignedMessageResult, UnsignedMessageDraft,
};
pub use number::AbiInt;
pub use scalar::{decode_scalar, encode_scalar};
pub use schema::{merge_known_values, pack_into_cell, resolve_schema, unpack_from_cell, RawParam};
pub use types::{Param, ParameterSchema, StrictType};
pub use value::{HostValue, StrictValue};
