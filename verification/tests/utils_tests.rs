use jam_primitives::utils::{decode_compact_u32, encode_compact_u32};
use jam_primitives::{Decode, Encode, PrimitiveError};

#[test]
fn test_basic_codec() {
    let value = 42u32;
    let encoded = value.encode();
    let decoded = u32::decode(&mut &encoded[..]).unwrap();
    assert_eq!(decoded, value);
}

#[test]
fn test_compact_codec() {
    let value = 42u32;
    let encoded = encode_compact_u32(value);
    let decoded = decode_compact_u32(&mut &encoded[..]).unwrap();
    assert_eq!(decoded, value);
}

#[test]
fn compact_encoding_modes() {
    assert_eq!(encode_compact_u32(0), vec![0]);
    assert_eq!(encode_compact_u32(63), vec![252]);
    assert_eq!(encode_compact_u32(64), vec![1, 1]);
    assert_eq!(encode_compact_u32(16383), vec![0xfd, 0xff]);
    assert_eq!(encode_compact_u32(16384), vec![2, 0, 1, 0]);
    assert_eq!(encode_compact_u32(0x3fff_ffff), vec![0xfe, 0xff, 0xff, 0xff]);
    assert_eq!(encode_compact_u32(0x4000_0000), vec![3, 0, 0, 0, 0x40]);
    assert_eq!(encode_compact_u32(u32::MAX), vec![3, 0xff, 0xff, 0xff, 0xff]);
}

#[test]
fn compact_round_trip_leaves_the_rest() {
    for v in [0u32, 1, 63, 64, 300, 16383, 16384, 1 << 29, 0x3fff_ffff, 0x4000_0000, u32::MAX] {
        let mut bytes = encode_compact_u32(v);
        bytes.extend_from_slice(&[0xaa, 0xbb]);
        let mut input: &[u8] = &bytes;
        assert_eq!(decode_compact_u32(&mut input), Ok(v));
        assert_eq!(input, &[0xaa, 0xbb]);
    }
}

#[test]
fn compact_decoding_rejects_bad_input() {
    let mut empty: &[u8] = &[];
    assert!(matches!(decode_compact_u32(&mut empty), Err(PrimitiveError::CodecError(_))));
    // value 0 in the two-byte mode is not canonical
    let mut wide: &[u8] = &[0b01, 0];
    assert!(matches!(decode_compact_u32(&mut wide), Err(PrimitiveError::CodecError(_))));
    // a four-byte value that a single byte could hold
    let mut short: &[u8] = &[3, 1, 0, 0, 0];
    assert!(matches!(decode_compact_u32(&mut short), Err(PrimitiveError::CodecError(_))));
    let mut truncated: &[u8] = &[2, 0];
    assert!(matches!(decode_compact_u32(&mut truncated), Err(PrimitiveError::CodecError(_))));
}

#[test]
fn sequence_and_option_encodings_match_scale() {
    let v: Vec<Vec<u8>> = vec![vec![1, 2], vec![], vec![3; 70]];
    assert_eq!(v.encode(), parity_scale_codec::Encode::encode(&v));
    let some: Option<u32> = Some(5);
    let none: Option<u32> = None;
    assert_eq!(some.encode(), parity_scale_codec::Encode::encode(&some));
    assert_eq!(none.encode(), parity_scale_codec::Encode::encode(&none));
    assert_eq!(true.encode(), vec![1]);
    assert_eq!(0x0102u16.encode(), vec![2, 1]);
    assert_eq!(u128::MAX.encode(), vec![0xff; 16]);
}

#[test]
fn basic_encoding_agrees_with_scale() {
    let value = 42u32;
    assert_eq!(value.encode(), parity_scale_codec::Encode::encode(&value));
}

#[test]
fn integers_decode_from_scale_bytes() {
    let bytes = parity_scale_codec::Encode::encode(&(7u8, 0x0102u16, 0xdead_beefu32, u64::MAX - 1, 1u128 << 100));
    let mut input: &[u8] = &bytes;
    assert_eq!(u8::decode(&mut input), Ok(7));
    assert_eq!(u16::decode(&mut input), Ok(0x0102));
    assert_eq!(u32::decode(&mut input), Ok(0xdead_beef));
    assert_eq!(u64::decode(&mut input), Ok(u64::MAX - 1));
    assert_eq!(u128::decode(&mut input), Ok(1u128 << 100));
    assert!(input.is_empty());
}

#[test]
fn short_input_does_not_decode() {
    let mut three: &[u8] = &[1, 2, 3];
    assert!(matches!(u32::decode(&mut three), Err(PrimitiveError::CodecError(_))));
    let mut empty: &[u8] = &[];
    assert!(matches!(u8::decode(&mut empty), Err(PrimitiveError::CodecError(_))));
    let mut array: &[u8] = &[0; 31];
    assert!(matches!(<[u8; 32]>::decode(&mut array), Err(PrimitiveError::CodecError(_))));
}

#[test]
fn bool_and_option_tags_are_checked() {
    assert_eq!(bool::decode(&mut &[1u8][..]), Ok(true));
    assert_eq!(bool::decode(&mut &[0u8][..]), Ok(false));
    assert!(matches!(bool::decode(&mut &[2u8][..]), Err(PrimitiveError::CodecError(_))));
    assert_eq!(Option::<u16>::decode(&mut &[1u8, 5, 0][..]), Ok(Some(5)));
    assert_eq!(Option::<u16>::decode(&mut &[0u8][..]), Ok(None));
    assert!(matches!(Option::<u16>::decode(&mut &[2u8, 5, 0][..]), Err(PrimitiveError::CodecError(_))));
    assert!(matches!(Option::<u16>::decode(&mut &[1u8, 5][..]), Err(PrimitiveError::CodecError(_))));
}

#[test]
fn sequences_decode_and_leave_the_rest() {
    let v: Vec<Vec<u8>> = vec![vec![1, 2], vec![], vec![3; 70]];
    let mut bytes = v.encode();
    bytes.extend_from_slice(&[9, 9]);
    let mut input: &[u8] = &bytes;
    assert_eq!(Vec::<Vec<u8>>::decode(&mut input), Ok(v.clone()));
    assert_eq!(input, &[9, 9]);
    let scale: Vec<Vec<u8>> = parity_scale_codec::Decode::decode(&mut &v.encode()[..]).unwrap();
    assert_eq!(scale, v);
}

#[test]
fn truncated_sequence_does_not_decode() {
    // three elements announced, two present
    let mut input: &[u8] = &[12, 1, 2];
    assert!(matches!(Vec::<u8>::decode(&mut input), Err(PrimitiveError::CodecError(_))));
    // a length prefix that is not canonical
    let mut wide: &[u8] = &[0b01, 0];
    assert!(matches!(Vec::<u8>::decode(&mut wide), Err(PrimitiveError::CodecError(_))));
}

#[test]
fn pairs_decode_in_order() {
    let pair = (5u32, vec![true, false]);
    let bytes = parity_scale_codec::Encode::encode(&pair);
    assert_eq!(pair.encode(), bytes);
    assert_eq!(<(u32, Vec<bool>)>::decode(&mut &bytes[..]), Ok(pair));
}

fn scale_error_text<T: parity_scale_codec::Decode + std::fmt::Debug>(bytes: &[u8]) -> String {
    <T as parity_scale_codec::Decode>::decode(&mut &bytes[..]).unwrap_err().to_string()
}

fn codec_message<T: Decode + std::fmt::Debug>(bytes: &[u8]) -> String {
    match T::decode(&mut &bytes[..]) {
        Err(PrimitiveError::CodecError(m)) => m,
        other => panic!("expected a codec error, got {:?}", other),
    }
}

#[test]
fn decode_errors_are_the_scale_decoder_errors() {
    assert_eq!(codec_message::<u32>(&[1, 2, 3]), scale_error_text::<u32>(&[1, 2, 3]));
    assert_eq!(codec_message::<bool>(&[7]), scale_error_text::<bool>(&[7]));
    assert_eq!(codec_message::<[u8; 4]>(&[1]), scale_error_text::<[u8; 4]>(&[1]));
    for bad in [&[][..], &[2, 5, 0][..], &[1, 5][..]] {
        assert_eq!(codec_message::<Option<u16>>(bad), scale_error_text::<Option<u16>>(bad));
    }
    for bad in [&[12, 1, 2][..], &[0b01, 0][..], &[][..]] {
        assert_eq!(codec_message::<Vec<u8>>(bad), scale_error_text::<Vec<u8>>(bad));
    }
    let nested = [8u8, 4, 1];
    assert_eq!(codec_message::<Vec<Vec<u8>>>(&nested), scale_error_text::<Vec<Vec<u8>>>(&nested));
    let pair = [5u8, 0, 0, 0, 8, 1, 2];
    assert_eq!(codec_message::<(u32, Vec<bool>)>(&pair), scale_error_text::<(u32, Vec<bool>)>(&pair));
    assert_eq!(codec_message::<u32>(&[1, 2, 3]), "Not enough data to fill buffer");
    assert_eq!(codec_message::<Vec<u8>>(&[12, 1, 2]), "Not enough data to decode vector");
}
