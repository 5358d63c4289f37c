//! The errors of the library.

use vstd::prelude::*;

verus! {

/// Why a conversion or a step of a message's life cycle was refused.
#[derive(Debug, PartialEq, Eq)]
pub enum BridgeError {
    /// A schema description is malformed.
    SchemaParseError,
    /// A host value has not the shape that the declared type asks for.
    TypeMismatch,
    /// A number does not fit the declared width and signedness.
    OutOfRange,
    /// A text is not the hexadecimal or base64 text that is asked for.
    InvalidEncoding,
    /// A text is not an address.
    InvalidAddress,
    /// The named parameter is absent and its type is not optional.
    ParameterMissing(String),
    /// The named parameter, or key, is given twice.
    ParameterConflict(String),
    /// A list has not the declared length.
    LengthMismatch,
    /// A signature has not 64 bytes.
    SignatureLengthMismatch,
    /// The message expired at the given instant.
    MessageExpired(u64),
}

/// A `BridgeError` as a mathematical value.
pub enum ErrorModel {
    SchemaParseError,
    TypeMismatch,
    OutOfRange,
    InvalidEncoding,
    InvalidAddress,
    ParameterMissing(Seq<char>),
    ParameterConflict(Seq<char>),
    LengthMismatch,
    SignatureLengthMismatch,
    MessageExpired(nat),
}

impl View for BridgeError {
    type V = ErrorModel;

    open spec fn view(&self) -> ErrorModel {
        match self {
            BridgeError::SchemaParseError => ErrorModel::SchemaParseError,
            BridgeError::TypeMismatch => ErrorModel::TypeMismatch,
            BridgeError::OutOfRange => ErrorModel::OutOfRange,
            BridgeError::InvalidEncoding => ErrorModel::InvalidEncoding,
            BridgeError::InvalidAddress => ErrorModel::InvalidAddress,
            BridgeError::ParameterMissing(name) => ErrorModel::ParameterMissing(name@),
            BridgeError::ParameterConflict(name) => ErrorModel::ParameterConflict(name@),
            BridgeError::LengthMismatch => ErrorModel::LengthMismatch,
            BridgeError::SignatureLengthMismatch => ErrorModel::SignatureLengthMismatch,
            BridgeError::MessageExpired(at) => ErrorModel::MessageExpired(*at as nat),
        }
    }
}

/// A result as a mathematical value: the view of what it holds.
pub open spec fn result_view<T: View>(r: Result<T, BridgeError>) -> Result<T::V, ErrorModel> {
    match r {
        Ok(v) => Ok(v@),
        Err(e) => Err(e@),
    }
}

} // verus!
