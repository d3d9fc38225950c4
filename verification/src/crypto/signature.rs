//! Signature verification operations

use vstd::prelude::*;

use crate::crypto::{Ed25519PublicKey, Ed25519Signature};

verus! {

/// Trait for signature verification
pub trait Verify {
    type PublicKey;

    type Signature;

    fn verify(public_key: &Self::PublicKey, signature: &Self::Signature, message: &[u8]) -> bool;
}

/// Ed25519 signature verification
pub struct Ed25519Verifier;

impl Verify for Ed25519Verifier {
    type PublicKey = Ed25519PublicKey;

    type Signature = Ed25519Signature;

    /// Verification is not implemented yet: every signature is rejected.
    fn verify(
        _public_key: &Self::PublicKey,
        _signature: &Self::Signature,
        _message: &[u8],
    ) -> (out: bool)
        ensures
            !out,
    {
        false
    }
}

} // verus!
