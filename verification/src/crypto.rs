//! # Cryptographic Primitives for JAM Protocol
//!
//! This module provides cryptographic types and operations used throughout the JAM protocol.

pub mod bandersnatch;
pub mod hashing;
pub mod signature;

use vstd::prelude::*;
use vstd::std_specs::cmp::PartialEqSpecImpl;
use vstd::std_specs::convert::FromSpecImpl;

use crate::utils::codec::{Canonical, starts_with, Decode, Encode, decode_field, decode_extend, DecodeError, field_step, extend_step, step_error};

verus! {

/// Ed25519 public key (32 bytes)
#[derive(Debug, Clone, Copy, Eq, Hash)]
pub struct Ed25519PublicKey(pub [u8; 32]);

impl From<[u8; 32]> for Ed25519PublicKey {
    fn from(value: [u8; 32]) -> (out: Self) {
        Ed25519PublicKey(value)
    }
}

impl FromSpecImpl<[u8; 32]> for Ed25519PublicKey {
    open spec fn obeys_from_spec() -> bool {
        true
    }

    open spec fn from_spec(v: [u8; 32]) -> Self {
        Ed25519PublicKey(v)
    }
}

impl PartialEq for Ed25519PublicKey {
    fn eq(&self, other: &Self) -> (out: bool) {
        let a: &[u8] = self.0.as_slice();
        let b: &[u8] = other.0.as_slice();
        let out = crate::utils::bytes_equal(a, b);
        assert(a@ == self.0@ && b@ == other.0@);
        out
    }
}

impl PartialEqSpecImpl for Ed25519PublicKey {
    open spec fn obeys_eq_spec() -> bool {
        true
    }

    open spec fn eq_spec(&self, other: &Self) -> bool {
        self.0@ == other.0@
    }
}

impl AsRef<[u8]> for Ed25519PublicKey {
    fn as_ref(&self) -> (out: &[u8])
        ensures
            out@ == self.0@,
    {
        self.0.as_slice()
    }
}

impl Encode for Ed25519PublicKey {
    open spec fn encodable(&self) -> bool {
        true
    }

    open spec fn encoding(&self) -> Seq<u8> {
        self.0@
    }

    fn encode_to(&self, dest: &mut Vec<u8>) {
        self.0.encode_to(dest);
    }
}

impl Decode for Ed25519PublicKey {
    proof fn lemma_prefix_unique(a: Self, b: Self, s: Seq<u8>) {
        <[u8; 32] as Decode>::lemma_prefix_unique(a.0, b.0, s);
    }

    open spec fn decode_error(bytes: Seq<u8>, pos: int) -> Seq<Seq<char>> {
        step_error(field_step::<[u8; 32]>(bytes, pos, "Could not decode `Ed25519PublicKey.0`"@))
    }

    fn decode_at(bytes: &[u8], pos: usize) -> (out: Result<(Self, usize), DecodeError>) {
        match decode_field::<[u8; 32]>(bytes, pos, "Could not decode `Ed25519PublicKey.0`") {
            Ok((x, end)) => Ok((Ed25519PublicKey(x), end)),
            Err(e) => {
                assert forall|v: Ed25519PublicKey| v.encodable() implies !starts_with(
                    bytes@.skip(pos as int),
                    #[trigger] v.encoding(),
                ) by {
                    assert(v.0.encoding() == v.encoding());
                }
                Err(e)
            },
        }
    }

    open spec fn width() -> Option<nat> {
        None
    }

    fn fixed_width() -> (out: Option<usize>) {
        None
    }
}

impl Canonical for Ed25519PublicKey {
    proof fn lemma_encoding_injective(a: Self, b: Self) {
        <[u8; 32] as Canonical>::lemma_encoding_injective(a.0, b.0);
    }
}

/// Ed25519 signature (64 bytes)
#[derive(Debug, Clone, Copy, Eq, Hash)]
pub struct Ed25519Signature(pub [u8; 64]);

impl From<[u8; 64]> for Ed25519Signature {
    fn from(value: [u8; 64]) -> (out: Self) {
        Ed25519Signature(value)
    }
}

impl FromSpecImpl<[u8; 64]> for Ed25519Signature {
    open spec fn obeys_from_spec() -> bool {
        true
    }

    open spec fn from_spec(v: [u8; 64]) -> Self {
        Ed25519Signature(v)
    }
}

impl PartialEq for Ed25519Signature {
    fn eq(&self, other: &Self) -> (out: bool) {
        let a: &[u8] = self.0.as_slice();
        let b: &[u8] = other.0.as_slice();
        let out = crate::utils::bytes_equal(a, b);
        assert(a@ == self.0@ && b@ == other.0@);
        out
    }
}

impl PartialEqSpecImpl for Ed25519Signature {
    open spec fn obeys_eq_spec() -> bool {
        true
    }

    open spec fn eq_spec(&self, other: &Self) -> bool {
        self.0@ == other.0@
    }
}

impl Encode for Ed25519Signature {
    open spec fn encodable(&self) -> bool {
        true
    }

    open spec fn encoding(&self) -> Seq<u8> {
        self.0@
    }

    fn encode_to(&self, dest: &mut Vec<u8>) {
        self.0.encode_to(dest);
    }
}

impl Decode for Ed25519Signature {
    proof fn lemma_prefix_unique(a: Self, b: Self, s: Seq<u8>) {
        <[u8; 64] as Decode>::lemma_prefix_unique(a.0, b.0, s);
    }

    open spec fn decode_error(bytes: Seq<u8>, pos: int) -> Seq<Seq<char>> {
        step_error(field_step::<[u8; 64]>(bytes, pos, "Could not decode `Ed25519Signature.0`"@))
    }

    fn decode_at(bytes: &[u8], pos: usize) -> (out: Result<(Self, usize), DecodeError>) {
        match decode_field::<[u8; 64]>(bytes, pos, "Could not decode `Ed25519Signature.0`") {
            Ok((x, end)) => Ok((Ed25519Signature(x), end)),
            Err(e) => {
                assert forall|v: Ed25519Signature| v.encodable() implies !starts_with(
                    bytes@.skip(pos as int),
                    #[trigger] v.encoding(),
                ) by {
                    assert(v.0.encoding() == v.encoding());
                }
                Err(e)
            },
        }
    }

    open spec fn width() -> Option<nat> {
        None
    }

    fn fixed_width() -> (out: Option<usize>) {
        None
    }
}

impl Canonical for Ed25519Signature {
    proof fn lemma_encoding_injective(a: Self, b: Self) {
        <[u8; 64] as Canonical>::lemma_encoding_injective(a.0, b.0);
    }
}

impl Ed25519Signature {
    /// The value held by `bytes` when it has exactly 64 bytes.
    pub fn from_slice(bytes: &[u8]) -> (out: Option<Self>)
        ensures
            match out {
                Some(v) => v.0@ == bytes@,
                None => bytes@.len() != 64,
            },
    {
        if bytes.len() == 64 {
            let mut a = [0u8; 64];
            crate::utils::copy_into(&mut a, bytes);
            Some(Ed25519Signature(a))
        } else {
            None
        }
    }
}

} // verus!
