use jam_primitives::types::Hash as BlockHash;
use jam_primitives::{AccountId, Balance, BlockNumber, Decode, Encode, Gas, ServiceId, Signature, TimeSlot, Timestamp, Weight};

#[test]
fn test_account_id() {
    let bytes = [1u8; 32];
    let account_id = AccountId::from(bytes);
    assert_eq!(account_id.as_ref(), &bytes);
}

#[test]
fn test_hash() {
    let bytes = [2u8; 32];
    let hash = BlockHash::from(bytes);
    assert_eq!(hash.as_ref(), &bytes);
}

#[test]
fn test_block_number() {
    let number = 42u32;
    let block_number = BlockNumber::from(number);
    assert_eq!(u32::from(block_number), number);
}

#[test]
fn test_timestamp() {
    let time = 1234567890u64;
    let timestamp = Timestamp::from(time);
    assert_eq!(u64::from(timestamp), time);
}

#[test]
fn test_signature_types() {
    let ed25519_sig = Signature::ed25519([1u8; 64]);
    let ecdsa_sig = Signature::ecdsa([2u8; 65]);
    let bandersnatch_sig = Signature::bandersnatch([3u8; 64]);

    assert_eq!(ed25519_sig.as_bytes(), &[1u8; 64]);
    assert_eq!(ecdsa_sig.as_bytes(), &[2u8; 65]);
    assert_eq!(bandersnatch_sig.as_bytes(), &[3u8; 64]);
}

#[test]
fn account_id_new_and_bytes() {
    let id = AccountId::new([7u8; 32]);
    assert_eq!(id.as_bytes(), &[7u8; 32]);
    assert_eq!(id, AccountId([7u8; 32]));
}

#[test]
fn zero_hash_is_zero_and_others_are_not() {
    assert!(BlockHash::zero().is_zero());
    let mut bytes = [0u8; 32];
    bytes[31] = 1;
    assert!(!BlockHash::from(bytes).is_zero());
    assert_eq!(BlockHash::zero(), BlockHash([0u8; 32]));
    assert_ne!(BlockHash::zero(), BlockHash::from(bytes));
}

#[test]
fn timestamp_saturating_sub() {
    assert_eq!(Timestamp(5000).saturating_sub(Timestamp(1200)), 3800);
    assert_eq!(Timestamp(1200).saturating_sub(Timestamp(5000)), 0);
}

#[test]
fn gas_product_is_exact() {
    assert_eq!(Gas(21000).saturating_mul(20), Balance(420000));
    let big = Gas(u64::MAX).saturating_mul(u64::MAX);
    assert_eq!(big.0, (u64::MAX as u128) * (u64::MAX as u128));
}

#[test]
fn gas_little_endian_bytes() {
    assert_eq!(Gas(0x0102_0304_0506_0708).to_le_bytes(), [8, 7, 6, 5, 4, 3, 2, 1]);
    assert_eq!(Gas(0).to_le_bytes(), [0u8; 8]);
}

#[test]
fn balance_saturating_arithmetic() {
    assert_eq!(Balance(10).saturating_mul(7), Balance(70));
    assert_eq!(Balance(u128::MAX / 2 + 1).saturating_mul(2), Balance::max_value());
    assert_eq!(Balance(3).saturating_add(Balance(4)), Balance(7));
    assert_eq!(Balance::max_value().saturating_add(Balance(1)), Balance(u128::MAX));
    assert_eq!(Balance(3).saturating_sub(Balance(4)), Balance::zero());
    assert_eq!(Balance(10).saturating_sub(Balance(4)), Balance(6));
    assert_eq!(u128::from(Balance::from(99u128)), 99);
}

#[test]
fn numeric_conversions_round_trip() {
    assert_eq!(u64::from(Weight::from(17u64)), 17);
    assert_eq!(u64::from(Gas::from(18u64)), 18);
    assert_eq!(u32::from(ServiceId::from(19u32)), 19);
    assert_eq!(u32::from(TimeSlot::from(20u32)), 20);
    assert_eq!(ServiceId::new(3), ServiceId(3));
}

#[test]
fn weight_and_block_number_operators() {
    assert_eq!(Weight(5) + Weight(6), Weight(11));
    assert_eq!(Weight(5) * 7, Weight(35));
    assert_eq!(BlockNumber(41) + 1, BlockNumber(42));
}

#[test]
fn signature_equality_compares_variant_and_bytes() {
    assert_eq!(Signature::ed25519([1u8; 64]), Signature::Ed25519([1u8; 64]));
    assert_ne!(Signature::ed25519([1u8; 64]), Signature::bandersnatch([1u8; 64]));
    assert_ne!(Signature::ed25519([1u8; 64]), Signature::ed25519([2u8; 64]));
}

#[test]
fn signature_from_variant_bytes_checks_lengths() {
    assert_eq!(Signature::from_variant_bytes(0, &[9u8; 64]), Some(Signature::Ed25519([9u8; 64])));
    assert_eq!(Signature::from_variant_bytes(1, &[9u8; 65]), Some(Signature::Ecdsa([9u8; 65])));
    assert_eq!(
        Signature::from_variant_bytes(2, &[9u8; 64]),
        Some(Signature::Bandersnatch([9u8; 64]))
    );
    assert_eq!(Signature::from_variant_bytes(0, &[9u8; 65]), None);
    assert_eq!(Signature::from_variant_bytes(1, &[9u8; 64]), None);
    assert_eq!(Signature::from_variant_bytes(3, &[9u8; 64]), None);
}

#[test]
fn newtypes_decode_from_scale_bytes() {
    let bytes = parity_scale_codec::Encode::encode(&([7u8; 32], 5u32, 6u64, 7u64, 8u64, 9u128, 10u32, 11u32, [1u8; 32]));
    let mut input: &[u8] = &bytes;
    assert_eq!(AccountId::decode(&mut input), Ok(AccountId([7; 32])));
    assert_eq!(BlockNumber::decode(&mut input), Ok(BlockNumber(5)));
    assert_eq!(Timestamp::decode(&mut input), Ok(Timestamp(6)));
    assert_eq!(Weight::decode(&mut input), Ok(Weight(7)));
    assert_eq!(Gas::decode(&mut input), Ok(Gas(8)));
    assert_eq!(Balance::decode(&mut input), Ok(Balance(9)));
    assert_eq!(ServiceId::decode(&mut input), Ok(ServiceId(10)));
    assert_eq!(TimeSlot::decode(&mut input), Ok(TimeSlot(11)));
    assert_eq!(BlockHash::decode(&mut input), Ok(BlockHash([1; 32])));
    assert!(input.is_empty());
}

#[test]
fn signatures_decode_by_variant() {
    for sig in [Signature::Ed25519([1; 64]), Signature::Ecdsa([2; 65]), Signature::Bandersnatch([3; 64])] {
        let bytes = sig.encode();
        assert_eq!(Signature::decode(&mut &bytes[..]), Ok(sig.clone()));
        assert!(Signature::decode(&mut &bytes[..bytes.len() - 1]).is_err());
    }
}
