//! Helpers shared by the protocol types.

pub mod codec;

pub use codec::{decode_compact_u32, encode_compact_u32, Codec};

use vstd::prelude::*;

verus! {

/// Whether two byte sequences are equal.
pub fn bytes_equal(a: &[u8], b: &[u8]) -> (out: bool)
    ensures
        out == (a@ == b@),
{
    if a.len() != b.len() {
        return false;
    }
    let mut i: usize = 0;
    while i < a.len()
        invariant
            i <= a@.len(),
            a@.len() == b@.len(),
            forall|j: int| 0 <= j < i ==> a@[j] == b@[j],
        decreases a@.len() - i,
    {
        if a[i] != b[i] {
            return false;
        }
        i = i + 1;
    }
    assert(a@ =~= b@);
    true
}

/// Whether every byte of `s` is zero.
pub open spec fn all_zero(s: Seq<u8>) -> bool {
    forall|i: int| 0 <= i < s.len() ==> s[i] == 0
}

/// Copies `src` into the array `dest` of the same length.
pub fn copy_into<const N: usize>(dest: &mut [u8; N], src: &[u8])
    requires
        src@.len() == N,
    ensures
        final(dest)@ == src@,
{
    let mut i: usize = 0;
    while i < N
        invariant
            i <= N,
            src@.len() == N,
            dest@.len() == N,
            forall|j: int| 0 <= j < i ==> dest@[j] == src@[j],
        decreases N - i,
    {
        dest[i] = src[i];
        i = i + 1;
    }
    assert(dest@ =~= src@);
}

} // verus!
