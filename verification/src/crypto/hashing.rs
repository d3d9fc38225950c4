//! Hashing operations module

use vstd::prelude::*;

use blake3::Hasher as Blake3State;

verus! {

#[verifier::external_type_specification]
#[verifier::external_body]
pub struct ExBlake3State(Blake3State);

/// The BLAKE3 digest (32 bytes) of `data`.
pub uninterp spec fn blake3_digest(data: Seq<u8>) -> Seq<u8>;

/// The bytes that have been fed into a streaming BLAKE3 state.
pub uninterp spec fn blake3_absorbed(state: Blake3State) -> Seq<u8>;

/// `blake3::hash`: the BLAKE3 digest of `data`, as 32 bytes. Trusted to be
/// the function `blake3_digest` of the input bytes alone.
#[verifier::external_body]
fn blake3_hash(data: &[u8]) -> (out: [u8; 32])
    ensures
        out@ == blake3_digest(data@),
{
    *blake3::hash(data).as_bytes()
}

/// `blake3::Hasher::new`: a streaming state that has absorbed nothing.
#[verifier::external_body]
fn blake3_state_new() -> (out: Blake3State)
    ensures
        blake3_absorbed(out) == Seq::<u8>::empty(),
{
    Blake3State::new()
}

/// `blake3::Hasher::update`: appends `data` to what the state has absorbed.
#[verifier::external_body]
fn blake3_state_update(state: &mut Blake3State, data: &[u8])
    ensures
        blake3_absorbed(*final(state)) == blake3_absorbed(*old(state)) + data@,
{
    state.update(data);
}

/// `blake3::Hasher::finalize`: the digest of everything absorbed so far, which
/// the crate documents to equal `blake3::hash` of the concatenated input.
#[verifier::external_body]
fn blake3_state_finalize(state: &Blake3State) -> (out: [u8; 32])
    ensures
        out@ == blake3_digest(blake3_absorbed(*state)),
{
    *state.finalize().as_bytes()
}

/// Trait for cryptographic hashers
pub trait Hasher: Sized {
    fn new() -> Self;

    fn hash(&self, data: &[u8]) -> crate::types::Hash;

    fn update(&mut self, data: &[u8]);

    fn finalize(self) -> crate::types::Hash;
}

/// Blake3 hasher implementation
pub struct Blake3Hasher {
    hasher: Blake3State,
}

impl View for Blake3Hasher {
    type V = Seq<u8>;

    /// The bytes fed to the hasher so far.
    closed spec fn view(&self) -> Seq<u8> {
        blake3_absorbed(self.hasher)
    }
}

impl Hasher for Blake3Hasher {
    fn new() -> (out: Self)
        ensures
            out@ == Seq::<u8>::empty(),
    {
        Self { hasher: blake3_state_new() }
    }

    fn hash(&self, data: &[u8]) -> (out: crate::types::Hash)
        ensures
            out.0@ == blake3_digest(data@),
    {
        crate::types::Hash(blake3_hash(data))
    }

    fn update(&mut self, data: &[u8])
        ensures
            final(self)@ == old(self)@ + data@,
    {
        blake3_state_update(&mut self.hasher, data);
    }

    fn finalize(self) -> (out: crate::types::Hash)
        ensures
            out.0@ == blake3_digest(self@),
    {
        crate::types::Hash(blake3_state_finalize(&self.hasher))
    }
}

impl Default for Blake3Hasher {
    fn default() -> (out: Self)
        ensures
            out@ == Seq::<u8>::empty(),
    {
        <Self as Hasher>::new()
    }
}

/// The digest of `data` as a hash value.
pub fn blake3_of(data: &[u8]) -> (out: crate::types::Hash)
    ensures
        out.0@ == blake3_digest(data@),
{
    crate::types::Hash(blake3_hash(data))
}

/// Feeding a hasher the pieces `a` and then `b` and finalizing gives the
/// one-shot digest of `a + b`: what `finalize` returns after two `update`
/// calls on a fresh hasher is `hash` of the concatenation.
pub proof fn streaming_matches_one_shot(a: Seq<u8>, b: Seq<u8>)
    ensures
        blake3_digest(Seq::<u8>::empty() + a + b) == blake3_digest(a + b),
{
    assert(Seq::<u8>::empty() + a + b =~= a + b);
}

} // verus!
