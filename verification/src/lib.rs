//! Core data types of the JAM protocol (accounts, hashes, headers, blocks,
//! transactions), their SCALE encoding, and the validation rules that a block
//! and its contents must satisfy.

pub mod block;
pub mod constants;
pub mod crypto;
pub mod header;
pub mod text;
pub mod transaction;
pub mod types;
pub mod utils;

pub use types::{
    AccountId, Balance, BlockNumber, Gas, ServiceId, Signature, TimeSlot, Timestamp, Weight,
};
pub use utils::codec::{Canonical, Decode, Encode};

use vstd::prelude::*;

verus! {

/// Common result type for primitive operations
pub type PrimitiveResult<T> = Result<T, PrimitiveError>;

/// Error types for primitive operations
#[derive(Debug, Clone, PartialEq, Eq)]
pub enum PrimitiveError {
    /// Invalid data format
    InvalidFormat,
    /// Validation failed
    ValidationFailed(String),
    /// Encoding/decoding error
    CodecError(String),
    /// Cryptographic operation failed
    CryptoError(String),
    /// Invalid block structure or content
    InvalidBlock(String),
    /// Size limit exceeded
    SizeLimit(String),
    /// Invalid transaction
    InvalidTransaction(String),
    /// Invalid header
    InvalidHeader(String),
}

/// The variant of a [`PrimitiveError`], without its message.
#[derive(Debug, Clone, Copy, PartialEq, Eq, Structural)]
pub enum ErrorKind {
    InvalidFormat,
    ValidationFailed,
    CodecError,
    CryptoError,
    InvalidBlock,
    SizeLimit,
    InvalidTransaction,
    InvalidHeader,
}

/// The model of a failed check: which error it is, and its message.
pub type Failure = (ErrorKind, Seq<char>);

impl PrimitiveError {
    /// The variant of the error.
    pub open spec fn kind(&self) -> ErrorKind {
        match self {
            PrimitiveError::InvalidFormat => ErrorKind::InvalidFormat,
            PrimitiveError::ValidationFailed(_) => ErrorKind::ValidationFailed,
            PrimitiveError::CodecError(_) => ErrorKind::CodecError,
            PrimitiveError::CryptoError(_) => ErrorKind::CryptoError,
            PrimitiveError::InvalidBlock(_) => ErrorKind::InvalidBlock,
            PrimitiveError::SizeLimit(_) => ErrorKind::SizeLimit,
            PrimitiveError::InvalidTransaction(_) => ErrorKind::InvalidTransaction,
            PrimitiveError::InvalidHeader(_) => ErrorKind::InvalidHeader,
        }
    }

    /// The message the error carries (empty for `InvalidFormat`).
    pub open spec fn message(&self) -> Seq<char> {
        match self {
            PrimitiveError::InvalidFormat => Seq::empty(),
            PrimitiveError::ValidationFailed(m) => m@,
            PrimitiveError::CodecError(m) => m@,
            PrimitiveError::CryptoError(m) => m@,
            PrimitiveError::InvalidBlock(m) => m@,
            PrimitiveError::SizeLimit(m) => m@,
            PrimitiveError::InvalidTransaction(m) => m@,
            PrimitiveError::InvalidHeader(m) => m@,
        }
    }

    /// The error as a failure model.
    pub open spec fn failure(&self) -> Failure {
        (self.kind(), self.message())
    }

    /// The human-readable text of the error.
    pub fn to_display_string(&self) -> (out: String)
        ensures
            out@ == display_text(self.failure()),
    {
        let (prefix, msg) = match self {
            PrimitiveError::InvalidFormat => {
                return String::from_str("Invalid data format");
            },
            PrimitiveError::ValidationFailed(m) => ("Validation failed: ", m),
            PrimitiveError::CodecError(m) => ("Codec error: ", m),
            PrimitiveError::CryptoError(m) => ("Crypto error: ", m),
            PrimitiveError::InvalidBlock(m) => ("Invalid block: ", m),
            PrimitiveError::SizeLimit(m) => ("Size limit exceeded: ", m),
            PrimitiveError::InvalidTransaction(m) => ("Invalid transaction: ", m),
            PrimitiveError::InvalidHeader(m) => ("Invalid header: ", m),
        };
        let mut out = String::from_str(prefix);
        out.append(msg.as_str());
        out
    }
}

/// The human-readable text of a failure: a phrase naming the kind of error,
/// followed by its message.
pub open spec fn display_text(f: Failure) -> Seq<char> {
    match f.0 {
        ErrorKind::InvalidFormat => "Invalid data format"@,
        ErrorKind::ValidationFailed => "Validation failed: "@ + f.1,
        ErrorKind::CodecError => "Codec error: "@ + f.1,
        ErrorKind::CryptoError => "Crypto error: "@ + f.1,
        ErrorKind::InvalidBlock => "Invalid block: "@ + f.1,
        ErrorKind::SizeLimit => "Size limit exceeded: "@ + f.1,
        ErrorKind::InvalidTransaction => "Invalid transaction: "@ + f.1,
        ErrorKind::InvalidHeader => "Invalid header: "@ + f.1,
    }
}

/// Whether the outcome `r` of a check is the one that the failure model `f`
/// describes: `Ok` when there is no failure, else an error of the same kind
/// and message.
pub open spec fn outcome_is(r: PrimitiveResult<()>, f: Option<Failure>) -> bool {
    match r {
        Ok(_) => f is None,
        Err(e) => f == Some(e.failure()),
    }
}


/// Trait for types that can be hashed
pub trait Hashable {
    /// Whether the value can be hashed (its hashed bytes can be computed).
    spec fn hash_ready(&self) -> bool;

    /// The bytes whose BLAKE3 digest is the hash of the value.
    spec fn hashed_bytes(&self) -> Seq<u8>;

    fn hash(&self) -> (out: crate::types::Hash)
        requires
            self.hash_ready(),
        ensures
            out.0@ == crate::crypto::hashing::blake3_digest(self.hashed_bytes()),
    ;
}

/// Trait for types that can be validated
pub trait Validate {
    /// Whether validation can run on the value without exceeding a limit of
    /// the encoder.
    spec fn validation_ready(&self) -> bool;

    /// The first rule that the value breaks, if any.
    spec fn validation_failure(&self) -> Option<Failure>;

    fn validate(&self) -> (out: PrimitiveResult<()>)
        requires
            self.validation_ready(),
        ensures
            outcome_is(out, self.validation_failure()),
    ;
}

/// The failure of a check, with its kind and message.
pub open spec fn fail(kind: ErrorKind, msg: Seq<char>) -> Option<Failure> {
    Some((kind, msg))
}

} // verus!
