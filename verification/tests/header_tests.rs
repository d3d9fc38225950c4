use jam_primitives::header::{Header, HeaderDigest};
use jam_primitives::types::Hash as BlockHash;
use jam_primitives::{AccountId, BlockNumber, Decode, Encode, Hashable, PrimitiveError, Timestamp, Validate};

fn dummy_account() -> AccountId {
    AccountId::new([1u8; 32])
}

#[test]
fn test_header_creation() {
    let header = Header::new(
        BlockHash::zero(),
        BlockNumber(1),
        Timestamp(1000),
        BlockHash::zero(),
        BlockHash::zero(),
        dummy_account(),
        0,
        1,
    );

    assert_eq!(header.number, BlockNumber(1));
    assert_eq!(header.timestamp, Timestamp(1000));
    assert!(!header.is_genesis());
}

#[test]
fn test_genesis_header() {
    let genesis = Header::new(
        BlockHash::zero(),
        BlockNumber(0),
        Timestamp(1000),
        BlockHash::zero(),
        BlockHash::zero(),
        dummy_account(),
        0,
        0,
    );

    assert!(genesis.is_genesis());
    assert!(genesis.verify_basic().is_ok());
}

#[test]
fn test_header_validation() {
    // Valid non-genesis header
    let parent_hash = BlockHash::from([1u8; 32]);
    let header = Header::new(
        parent_hash,
        BlockNumber(1),
        Timestamp(1000),
        BlockHash::zero(),
        BlockHash::zero(),
        dummy_account(),
        0,
        1,
    );

    assert!(header.verify_basic().is_ok());

    // Invalid: non-genesis with zero parent hash
    let invalid_header = Header::new(
        BlockHash::zero(),
        BlockNumber(1),
        Timestamp(1000),
        BlockHash::zero(),
        BlockHash::zero(),
        dummy_account(),
        0,
        1,
    );

    assert!(invalid_header.verify_basic().is_err());

    // Invalid: zero timestamp
    let zero_time_header = Header::new(
        parent_hash,
        BlockNumber(1),
        Timestamp(0),
        BlockHash::zero(),
        BlockHash::zero(),
        dummy_account(),
        0,
        0,
    );
    assert!(zero_time_header.verify_basic().is_err());
}

#[test]
fn test_header_parent_verification() {
    let parent = Header::new(
        BlockHash::zero(),
        BlockNumber(0),
        Timestamp(1000),
        BlockHash::zero(),
        BlockHash::zero(),
        dummy_account(),
        0,
        0,
    );

    let child = Header::new(
        parent.hash(),
        BlockNumber(1),
        Timestamp(2000),
        BlockHash::zero(),
        BlockHash::zero(),
        dummy_account(),
        0,
        1,
    );

    assert!(child.verify_against_parent(&parent).is_ok());

    // Invalid: wrong parent hash
    let wrong_parent = Header::new(
        BlockHash::from([1u8; 32]),
        BlockNumber(1),
        Timestamp(2000),
        BlockHash::zero(),
        BlockHash::zero(),
        dummy_account(),
        0,
        1,
    );

    assert!(wrong_parent.verify_against_parent(&parent).is_err());

    // Invalid: wrong block number
    let wrong_number = Header::new(
        parent.hash(),
        BlockNumber(3),
        Timestamp(2000),
        BlockHash::zero(),
        BlockHash::zero(),
        dummy_account(),
        0,
        3,
    );

    assert!(wrong_number.verify_against_parent(&parent).is_err());

    // Invalid: timestamp not advancing
    let same_time = Header::new(
        parent.hash(),
        BlockNumber(1),
        Timestamp(1000),
        BlockHash::zero(),
        BlockHash::zero(),
        dummy_account(),
        0,
        1,
    );

    assert!(same_time.verify_against_parent(&parent).is_err());
}

#[test]
fn test_header_digest() {
    let digest = HeaderDigest::new(*b"TEST", vec![1, 2, 3]);
    assert_eq!(digest.engine_id, *b"TEST");
    assert_eq!(digest.data, vec![1, 2, 3]);
}

fn header_at(parent_hash: BlockHash, number: u32, time: u64) -> Header {
    Header::new(
        parent_hash,
        BlockNumber(number),
        Timestamp(time),
        BlockHash::zero(),
        BlockHash::zero(),
        dummy_account(),
        0,
        number,
    )
}

fn header_message(r: Result<(), PrimitiveError>) -> String {
    match r {
        Err(PrimitiveError::InvalidHeader(m)) => m,
        other => panic!("expected an invalid header, got {:?}", other),
    }
}

#[test]
fn verify_basic_reports_each_rule() {
    let genesis_with_parent = header_at(BlockHash::from([1u8; 32]), 0, 1000);
    assert_eq!(
        header_message(genesis_with_parent.verify_basic()),
        "Genesis block must have zero parent hash"
    );
    let orphan = header_at(BlockHash::zero(), 5, 1000);
    assert_eq!(header_message(orphan.verify_basic()), "Non-genesis block cannot have zero parent hash");
    let no_time = header_at(BlockHash::zero(), 0, 0);
    assert_eq!(header_message(no_time.verify_basic()), "Header timestamp cannot be zero");
    let mut crowded = header_at(BlockHash::zero(), 0, 1000);
    crowded.digest = vec![vec![0u8]; 101];
    assert_eq!(header_message(crowded.verify_basic()), "Too many digest items");
    crowded.digest.pop();
    assert!(crowded.verify_basic().is_ok());
    assert!(crowded.validate().is_ok());
}

#[test]
fn verify_against_parent_at_a_given_time() {
    let parent = header_at(BlockHash::zero(), 0, 1000);
    let child = header_at(parent.hash(), 1, 200_000);
    assert!(child.verify_against_parent_at(&parent, 140_000).is_ok());
    assert_eq!(
        header_message(child.verify_against_parent_at(&parent, 139_999)),
        "Block timestamp too far in the future"
    );
    let wrong = header_at(BlockHash::from([3u8; 32]), 1, 2000);
    assert_eq!(header_message(wrong.verify_against_parent_at(&parent, 0)), "Parent hash mismatch");
    let skip = header_at(parent.hash(), 2, 2000);
    assert_eq!(
        header_message(skip.verify_against_parent_at(&parent, 10_000)),
        "Block number is not sequential"
    );
    let stale = header_at(parent.hash(), 1, 999);
    assert_eq!(
        header_message(stale.verify_against_parent_at(&parent, 10_000)),
        "Block timestamp must advance"
    );
}

#[test]
fn header_encoding_matches_scale() {
    let mut header = header_at(BlockHash::from([9u8; 32]), 7, 123_456);
    header.digest = vec![vec![1, 2, 3], vec![]];
    let expected = parity_scale_codec::Encode::encode(&(
        [9u8; 32],
        7u32,
        123_456u64,
        [0u8; 32],
        [0u8; 32],
        vec![vec![1u8, 2, 3], vec![]],
        [1u8; 32],
        0u32,
        7u32,
    ));
    assert_eq!(header.encode(), expected);
    assert_eq!(header.encoded_size(), expected.len());
    assert_eq!(header.encoded_size(), 32 + 4 + 8 + 32 + 32 + (1 + 4 + 1) + 32 + 4 + 4);
    assert_eq!(&header.hash().0, blake3::hash(&expected).as_bytes());
}

#[test]
fn header_digest_encoding() {
    let digest = HeaderDigest::new(*b"TEST", vec![1, 2, 3]);
    assert_eq!(digest.encode(), vec![b'T', b'E', b'S', b'T', 12, 1, 2, 3]);
}

#[test]
fn header_decodes_from_its_encoding() {
    let mut header = Header::new(
        BlockHash([3; 32]),
        BlockNumber(12),
        Timestamp(99),
        BlockHash([4; 32]),
        BlockHash([5; 32]),
        AccountId::new([6; 32]),
        2,
        7,
    );
    header.digest.push(vec![1, 2, 3]);
    let bytes = header.encode();
    assert_eq!(Header::decode(&mut &bytes[..]), Ok(header));
    let digest = HeaderDigest::new(*b"BABE", vec![0; 3]);
    assert_eq!(HeaderDigest::decode(&mut &digest.encode()[..]), Ok(digest));
}

#[test]
fn header_decode_error_names_the_field() {
    match Header::decode(&mut &[][..]) {
        Err(PrimitiveError::CodecError(m)) => assert_eq!(
            m,
            "Could not decode `Header::parent_hash`:\n\tCould not decode `Hash.0`:\n\t\tNot enough data to fill buffer\n"
        ),
        other => panic!("expected a codec error, got {:?}", other),
    }
}

#[test]
fn checked_parent_verification_refuses_the_last_block_number() {
    let parent = Header::new(
        BlockHash::from([7u8; 32]),
        BlockNumber(u32::MAX),
        Timestamp(1000),
        BlockHash::zero(),
        BlockHash::zero(),
        AccountId::new([1u8; 32]),
        0,
        0,
    );
    let child = Header::new(
        parent.hash(),
        BlockNumber(0),
        Timestamp(2000),
        BlockHash::zero(),
        BlockHash::zero(),
        AccountId::new([1u8; 32]),
        0,
        1,
    );
    assert!(child.checked_verify_against_parent(&parent).is_none());
    // a header that names another parent is refused on its hash
    let stranger = Header::new(
        BlockHash::from([9u8; 32]),
        BlockNumber(0),
        Timestamp(2000),
        BlockHash::zero(),
        BlockHash::zero(),
        AccountId::new([1u8; 32]),
        0,
        1,
    );
    match stranger.checked_verify_against_parent(&parent) {
        Some(Err(PrimitiveError::InvalidHeader(m))) => assert_eq!(m, "Parent hash mismatch"),
        other => panic!("expected a hash mismatch, got {:?}", other),
    }
    let normal_parent = Header::new(
        BlockHash::zero(),
        BlockNumber(0),
        Timestamp(1000),
        BlockHash::zero(),
        BlockHash::zero(),
        AccountId::new([1u8; 32]),
        0,
        0,
    );
    let normal_child = Header::new(
        normal_parent.hash(),
        BlockNumber(1),
        Timestamp(2000),
        BlockHash::zero(),
        BlockHash::zero(),
        AccountId::new([1u8; 32]),
        0,
        1,
    );
    assert_eq!(normal_child.checked_verify_against_parent(&normal_parent), Some(Ok(())));
}
