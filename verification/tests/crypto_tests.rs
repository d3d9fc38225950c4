use jam_primitives::{Decode, Encode};
use jam_primitives::crypto::bandersnatch;
use jam_primitives::crypto::hashing::{Blake3Hasher, Hasher};
use jam_primitives::crypto::signature::{Ed25519Verifier, Verify};
use jam_primitives::crypto::{Ed25519PublicKey, Ed25519Signature};

#[test]
fn test_blake3_hasher() {
    let hasher = Blake3Hasher::new();
    let data = b"hello world";
    let hash1 = hasher.hash(data);
    let hash2 = hasher.hash(data);
    assert_eq!(hash1, hash2);
}

#[test]
fn test_ed25519_public_key() {
    let bytes = [1u8; 32];
    let key = Ed25519PublicKey::from(bytes);
    assert_eq!(key.as_ref(), &bytes);
}

#[test]
fn test_bandersnatch_public_key() {
    let bytes = [2u8; 32];
    let key = bandersnatch::PublicKey::from(bytes);
    assert_eq!(key.as_ref(), &bytes);
}

#[test]
fn hasher_hash_is_blake3() {
    let hasher = Blake3Hasher::new();
    let h = hasher.hash(b"hello world");
    assert_eq!(&h.0, blake3::hash(b"hello world").as_bytes());
    assert_ne!(h, hasher.hash(b"hello worle"));
}

#[test]
fn streaming_hash_matches_one_shot() {
    let mut hasher = Blake3Hasher::default();
    hasher.update(b"hello ");
    hasher.update(b"world");
    let streamed = hasher.finalize();
    assert_eq!(streamed, Blake3Hasher::new().hash(b"hello world"));
    let empty = Blake3Hasher::new().finalize();
    assert_eq!(&empty.0, blake3::hash(b"").as_bytes());
}

#[test]
fn ed25519_verifier_rejects_everything() {
    let key = Ed25519PublicKey([0u8; 32]);
    let sig = Ed25519Signature([0u8; 64]);
    assert!(!Ed25519Verifier::verify(&key, &sig, b"message"));
}

#[test]
fn signature_from_slice_checks_length() {
    assert_eq!(Ed25519Signature::from_slice(&[4u8; 64]), Some(Ed25519Signature([4u8; 64])));
    assert_eq!(Ed25519Signature::from_slice(&[4u8; 63]), None);
    assert_eq!(
        bandersnatch::Signature::from_slice(&[5u8; 64]),
        Some(bandersnatch::Signature::from([5u8; 64]))
    );
    assert_eq!(bandersnatch::Signature::from_slice(&[5u8; 65]), None);
}

#[test]
fn keys_and_signatures_decode_from_their_bytes() {
    let key = Ed25519PublicKey::from([4; 32]);
    assert_eq!(Ed25519PublicKey::decode(&mut &key.encode()[..]), Ok(key));
    let sig = Ed25519Signature::from([5; 64]);
    assert_eq!(Ed25519Signature::decode(&mut &[5u8; 64][..]), Ok(sig));
    let bkey = bandersnatch::PublicKey::from([6; 32]);
    assert_eq!(bandersnatch::PublicKey::decode(&mut &[6u8; 32][..]), Ok(bkey));
    let bsig = bandersnatch::Signature::from([7; 64]);
    assert_eq!(bandersnatch::Signature::decode(&mut &bsig.encode()[..]), Ok(bsig));
}
