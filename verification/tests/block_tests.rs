use jam_primitives::block::{
    AvailabilityChunk, AvailabilityData, Block, BlockBody, Guarantee, Preimage, WorkContext, WorkReport, WorkResult,
};
use jam_primitives::header::Header;
use jam_primitives::transaction::{Transaction, TransactionKind};
use jam_primitives::types::Hash as BlockHash;
use jam_primitives::{
    AccountId, Balance, BlockNumber, Decode, Encode, Gas, Hashable, PrimitiveError, ServiceId, Signature, TimeSlot, Timestamp,
    Validate, Weight,
};

fn transfer(gas_limit: u64) -> Transaction {
    Transaction::new(
        AccountId::from([1u8; 32]),
        1,
        Gas(gas_limit),
        20,
        TransactionKind::Transfer { to: AccountId::from([2u8; 32]), amount: Balance(1000) },
        Signature::Ed25519([0u8; 64]),
    )
}

fn work_report(core_index: u16, data_len: usize) -> WorkReport {
    WorkReport::new(
        core_index,
        BlockHash::zero(),
        WorkResult {
            service_id: ServiceId(1),
            payload_hash: BlockHash::zero(),
            gas_used: Gas(5),
            result_data: vec![0u8; data_len],
        },
        WorkContext {
            anchor: BlockHash::zero(),
            state_root: BlockHash::zero(),
            lookup_anchor: BlockHash::zero(),
            prerequisite: None,
        },
        Signature::Bandersnatch([0u8; 64]),
    )
}

fn guarantee(signers: &[u8]) -> Guarantee {
    Guarantee {
        work_report: BlockHash::zero(),
        timeslot: TimeSlot(3),
        signatures: signers
            .iter()
            .map(|s| (AccountId::from([*s; 32]), Signature::Ed25519([0u8; 64])))
            .collect(),
    }
}

fn genesis_for(body: &BlockBody) -> Header {
    Header::new(
        BlockHash::zero(),
        BlockNumber(0),
        Timestamp(1000),
        BlockHash::zero(),
        body.hash(),
        AccountId::new([1u8; 32]),
        0,
        0,
    )
}

fn block_message(r: Result<(), PrimitiveError>) -> String {
    match r {
        Err(PrimitiveError::InvalidBlock(m)) => m,
        other => panic!("expected an invalid block, got {:?}", other),
    }
}

#[test]
fn empty_body_facts() {
    let body = BlockBody::new();
    assert!(body.is_empty());
    assert_eq!(body.transaction_count(), 0);
    assert_eq!(body.encode(), vec![0, 0, 0, 0, 0]);
    assert_eq!(body.encoded_size(), 5);
    assert_eq!(body.weight(), Weight(0));
    assert_eq!(BlockBody::default(), body);
    assert_eq!(AvailabilityData::default(), AvailabilityData::new());
}

#[test]
fn body_weight_adds_all_parts() {
    let mut body = BlockBody::with_transactions(vec![transfer(21000)]);
    body.add_transaction(transfer(21000));
    body.work_reports.push(work_report(1, 0));
    body.guarantees.push(guarantee(&[1]));
    body.guarantees.push(guarantee(&[2]));
    body.preimages.push(Preimage::new(vec![0u8; 7]));
    assert_eq!(body.transaction_count(), 2);
    assert!(!body.is_empty());
    assert_eq!(body.weight(), Weight(2 * 35_000 + 1000 + 2 * 500 + 7));
    let block = Block::new(genesis_for(&body), body);
    assert_eq!(block.weight(), Weight(2 * 35_000 + 1000 + 2 * 500 + 7));
    assert_eq!(block.transactions().len(), 2);
}

#[test]
fn genesis_block_validates() {
    let body = BlockBody::with_transactions(vec![transfer(21000)]);
    let block = Block::new(genesis_for(&body), body.clone());
    assert!(block.is_genesis());
    assert_eq!(block.number(), BlockNumber(0));
    assert_eq!(block.timestamp(), Timestamp(1000));
    assert_eq!(block.parent_hash(), BlockHash::zero());
    assert_eq!(block.size(), block.header.encoded_size() + body.encoded_size());
    assert_eq!(block.hash(), block.header.hash());
    assert_eq!(Hashable::hash(&block), block.header.hash());
    assert!(block.validate().is_ok());
}

#[test]
fn block_with_wrong_extrinsics_root_is_rejected() {
    let body = BlockBody::with_transactions(vec![transfer(21000)]);
    let mut header = genesis_for(&body);
    header.extrinsics_root = BlockHash::from([5u8; 32]);
    let block = Block::new(header, body);
    assert_eq!(block_message(block.validate()), "Header extrinsics root doesn't match computed body hash");
}

#[test]
fn block_header_errors_come_first() {
    let body = BlockBody::new();
    let mut header = genesis_for(&body);
    header.timestamp = Timestamp(0);
    let block = Block::new(header, body);
    assert_eq!(
        block.validate(),
        Err(PrimitiveError::InvalidHeader("Header timestamp cannot be zero".to_string()))
    );
}

#[test]
fn oversized_block_is_rejected() {
    let mut body = BlockBody::new();
    body.preimages.push(Preimage::new(vec![0u8; 4 * 1024 * 1024]));
    let block = Block::new(genesis_for(&body), body);
    assert_eq!(
        block.validate(),
        Err(PrimitiveError::SizeLimit("Block exceeds maximum size limit".to_string()))
    );
}

#[test]
fn body_errors_name_the_item() {
    let body = BlockBody::with_transactions(vec![transfer(21000), transfer(0)]);
    assert_eq!(
        block_message(body.validate()),
        "Invalid transaction at index 1: Invalid transaction: Gas limit cannot be zero"
    );

    let mut body = BlockBody::new();
    body.work_reports.push(work_report(1, 0));
    body.work_reports.push(work_report(1023, 0));
    assert_eq!(
        block_message(body.validate()),
        "Invalid work report at index 1: Invalid block: Core index exceeds maximum"
    );

    let mut body = BlockBody::new();
    body.work_reports.push(work_report(2, 1024 * 1024 + 1));
    assert_eq!(
        block_message(body.validate()),
        "Invalid work report at index 0: Size limit exceeded: Work result data exceeds maximum size"
    );

    let mut body = BlockBody::new();
    body.guarantees.push(guarantee(&[1, 2, 3]));
    body.guarantees.push(guarantee(&[]));
    assert_eq!(
        block_message(body.validate()),
        "Invalid guarantee at index 1: Invalid block: Guarantee must have at least one signature"
    );
}

#[test]
fn guarantee_rules() {
    assert!(guarantee(&[1, 2, 3]).validate().is_ok());
    assert_eq!(block_message(guarantee(&[]).validate()), "Guarantee must have at least one signature");
    assert_eq!(block_message(guarantee(&[1, 2, 1]).validate()), "Duplicate signer in guarantee");
    assert!(work_report(1022, 1024 * 1024).validate().is_ok());
    assert!(work_report(1022, 1024 * 1024).result.validate().is_ok());
}

#[test]
fn preimages_verify_their_data() {
    let p = Preimage::new(vec![1, 2, 3]);
    assert!(p.verify());
    assert_eq!(&p.hash.0, blake3::hash(&[1, 2, 3]).as_bytes());
    let mut tampered = p.clone();
    tampered.data.push(4);
    assert!(!tampered.verify());
}

#[test]
fn body_encoding_matches_scale() {
    let mut body = BlockBody::new();
    body.availability.chunks.push(AvailabilityChunk { index: 2, data: vec![1], proof: vec![2, 3] });
    body.preimages.push(Preimage::new(vec![9]));
    let p = &body.preimages[0];
    let expected = parity_scale_codec::Encode::encode(&(
        Vec::<u8>::new(),
        vec![(2u32, vec![1u8], vec![2u8, 3])],
        Vec::<u8>::new(),
        Vec::<u8>::new(),
        vec![(p.hash.0, vec![9u8])],
    ));
    assert_eq!(body.encode(), expected);
    assert_eq!(&body.hash().0, blake3::hash(&expected).as_bytes());
}

#[test]
fn work_report_encoding_matches_scale() {
    let report = work_report(7, 2);
    let expected = parity_scale_codec::Encode::encode(&(
        7u16,
        [0u8; 32],
        (1u32, [0u8; 32], 5u64, vec![0u8, 0]),
        ([0u8; 32], [0u8; 32], [0u8; 32], Option::<[u8; 32]>::None),
        2u8,
        [0u8; 64],
    ));
    assert_eq!(report.encode(), expected);
}

#[test]
fn block_decodes_from_its_encoding() {
    let mut body = BlockBody::with_transactions(vec![transfer(100)]);
    body.availability.chunks.push(AvailabilityChunk { index: 2, data: vec![1], proof: vec![2, 3] });
    body.work_reports.push(work_report(4, 3));
    body.guarantees.push(guarantee(&[1, 2]));
    body.preimages.push(Preimage::new(vec![9, 8]));
    let header = genesis_for(&body);
    let block = Block::new(header, body);
    let mut bytes = block.encode();
    bytes.push(0xee);
    let mut input: &[u8] = &bytes;
    let decoded = Block::decode(&mut input).unwrap();
    assert_eq!(decoded, block);
    assert_eq!(input, &[0xee]);
}

#[test]
fn work_items_decode_from_scale_bytes() {
    let report = work_report(7, 2);
    let bytes = parity_scale_codec::Encode::encode(&(
        7u16,
        [0u8; 32],
        (1u32, [0u8; 32], 5u64, vec![0u8, 0]),
        ([0u8; 32], [0u8; 32], [0u8; 32], Option::<[u8; 32]>::None),
        2u8,
        [0u8; 64],
    ));
    assert_eq!(WorkReport::decode(&mut &bytes[..]), Ok(report));
    let context = WorkContext {
        anchor: BlockHash::zero(),
        state_root: BlockHash([1; 32]),
        lookup_anchor: BlockHash::zero(),
        prerequisite: Some(BlockHash([2; 32])),
    };
    assert_eq!(WorkContext::decode(&mut &context.encode()[..]), Ok(context));
    let data = AvailabilityData { chunks: vec![AvailabilityChunk { index: 1, data: vec![], proof: vec![5] }] };
    assert_eq!(AvailabilityData::decode(&mut &data.encode()[..]), Ok(data));
}

#[test]
fn truncated_block_does_not_decode() {
    let body = BlockBody::with_transactions(vec![transfer(100)]);
    let block = Block::new(genesis_for(&body), body);
    let bytes = block.encode();
    let mut input: &[u8] = &bytes[..bytes.len() - 1];
    assert!(matches!(Block::decode(&mut input), Err(PrimitiveError::CodecError(_))));
}
