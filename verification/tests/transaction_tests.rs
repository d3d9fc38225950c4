use jam_primitives::crypto::{bandersnatch, Ed25519PublicKey};
use jam_primitives::transaction::{Transaction, TransactionKind, TransactionPoolEntry, ValidatorKeys};
use jam_primitives::types::Hash as BlockHash;
use jam_primitives::{AccountId, Balance, Decode, Encode, Gas, PrimitiveError, ServiceId, Signature, Timestamp, Validate, Weight};

fn dummy_signature() -> Signature {
    Signature::Ed25519([0u8; 64])
}

fn dummy_account() -> AccountId {
    AccountId::from([0u8; 32])
}

#[test]
fn test_transaction_creation() {
    let tx = Transaction::new(
        AccountId::from([1u8; 32]),
        1,
        Gas(21000),
        20,
        TransactionKind::Transfer { to: AccountId::from([2u8; 32]), amount: Balance(1000) },
        dummy_signature(),
    );

    assert_eq!(tx.nonce, 1);
    assert_eq!(tx.gas_limit, Gas(21000));
    assert_eq!(tx.fee(), Balance(420000));
}

#[test]
fn test_transaction_kind_types() {
    let transfer = TransactionKind::Transfer { to: dummy_account(), amount: Balance(1000) };
    assert_eq!(transfer.transaction_type(), 0);
    assert_eq!(transfer.transaction_type_name(), "Transfer");
    assert!(!transfer.requires_stake());

    let validator_register = TransactionKind::ValidatorRegister {
        keys: ValidatorKeys::new(
            Ed25519PublicKey::from([0u8; 32]),
            bandersnatch::PublicKey::from([0u8; 32]),
            Ed25519PublicKey::from([0u8; 32]),
            Ed25519PublicKey::from([0u8; 32]),
        ),
        stake: Balance(1000000),
    };
    assert_eq!(validator_register.transaction_type(), 4);
    assert!(validator_register.requires_stake());
}

#[test]
fn test_transaction_validation() {
    let valid_tx = Transaction::new(
        AccountId::from([1u8; 32]),
        1,
        Gas(21000),
        20,
        TransactionKind::Transfer { to: AccountId::from([2u8; 32]), amount: Balance(1000) },
        dummy_signature(),
    );
    assert!(valid_tx.validate().is_ok());

    let invalid_tx = Transaction::new(
        AccountId::from([1u8; 32]),
        1,
        Gas(0), // Invalid gas limit
        20,
        TransactionKind::Transfer { to: AccountId::from([2u8; 32]), amount: Balance(1000) },
        dummy_signature(),
    );
    assert!(invalid_tx.validate().is_err());
}

#[test]
fn test_transaction_pool_entry() {
    let tx = Transaction::new(
        AccountId::from([1u8; 32]),
        1,
        Gas(21000),
        20,
        TransactionKind::Transfer { to: AccountId::from([2u8; 32]), amount: Balance(1000) },
        dummy_signature(),
    );

    let mut entry = TransactionPoolEntry::new(tx, Timestamp(1000000));
    assert_eq!(entry.priority, 20);

    entry.update_priority(Timestamp(1001000)); // 1 second later
    assert_eq!(entry.priority, 21); // Gas price + age bonus

    assert!(!entry.is_expired(Timestamp(1005000), 10000)); // Not expired
    assert!(entry.is_expired(Timestamp(1015000), 10000)); // Expired
}

#[test]
fn test_transaction_weight_calculation() {
    let transfer = Transaction::new(
        AccountId::from([1u8; 32]),
        1,
        Gas(21000),
        20,
        TransactionKind::Transfer { to: AccountId::from([2u8; 32]), amount: Balance(1000) },
        dummy_signature(),
    );

    assert_eq!(transfer.weight(), Weight(35_000)); // Base + transfer weight

    let service_call = Transaction::new(
        AccountId::from([1u8; 32]),
        1,
        Gas(100000),
        20,
        TransactionKind::ServiceCall { service: ServiceId::new(1), method: 0, data: vec![0u8; 100] },
        dummy_signature(),
    );

    assert_eq!(service_call.weight(), Weight(61_000)); // Base + service call + data weight
}

fn tx_with(gas_limit: u64, gas_price: u64, kind: TransactionKind) -> Transaction {
    Transaction::new(AccountId::from([1u8; 32]), 7, Gas(gas_limit), gas_price, kind, dummy_signature())
}

fn tx_message(r: Result<(), PrimitiveError>) -> String {
    match r {
        Err(PrimitiveError::InvalidTransaction(m)) => m,
        other => panic!("expected an invalid transaction, got {:?}", other),
    }
}

#[test]
fn validation_reports_each_general_rule() {
    let transfer = TransactionKind::Transfer { to: dummy_account(), amount: Balance(5) };
    assert_eq!(tx_message(tx_with(0, 1, transfer.clone()).validate()), "Gas limit cannot be zero");
    assert_eq!(tx_message(tx_with(10_000_001, 1, transfer.clone()).validate()), "Gas limit too high");
    assert!(tx_with(10_000_000, 1, transfer.clone()).validate().is_ok());
    assert_eq!(
        tx_message(tx_with(100, 0, transfer).validate()),
        "Gas price cannot be zero for non-system transactions"
    );
    assert!(tx_with(100, 0, TransactionKind::ValidatorUnregister).validate().is_ok());
    assert!(tx_with(100, 0, TransactionKind::ValidatorUnregister).is_system_transaction());
}

#[test]
fn validation_reports_each_kind_rule() {
    let cases: Vec<(TransactionKind, &str)> = vec![
        (TransactionKind::Transfer { to: dummy_account(), amount: Balance(0) }, "Transfer amount cannot be zero"),
        (
            TransactionKind::ServiceCall { service: ServiceId(1), method: 2, data: vec![0u8; 1024 * 1024 + 1] },
            "Service call data too large",
        ),
        (TransactionKind::ServiceDeploy { code: vec![], initial_state: vec![] }, "Service code cannot be empty"),
        (
            TransactionKind::ServiceDeploy { code: vec![1u8; 5 * 1024 * 1024 + 1], initial_state: vec![] },
            "Service code too large",
        ),
        (
            TransactionKind::ServiceDeploy { code: vec![1u8], initial_state: vec![0u8; 1024 * 1024 + 1] },
            "Initial state too large",
        ),
        (TransactionKind::ServiceUpdate { service: ServiceId(1), code: vec![] }, "Service code cannot be empty"),
        (
            TransactionKind::ValidatorRegister {
                keys: ValidatorKeys::new(
                    Ed25519PublicKey([0u8; 32]),
                    bandersnatch::PublicKey([0u8; 32]),
                    Ed25519PublicKey([0u8; 32]),
                    Ed25519PublicKey([0u8; 32]),
                ),
                stake: Balance(0),
            },
            "Validator stake cannot be zero",
        ),
        (TransactionKind::Delegate { validator: dummy_account(), amount: Balance(0) }, "Delegation amount cannot be zero"),
        (TransactionKind::Undelegate { validator: dummy_account(), amount: Balance(0) }, "Delegation amount cannot be zero"),
        (TransactionKind::CoreAssign { core: 1, service: ServiceId(2), duration: 0 }, "Core assignment duration cannot be zero"),
        (
            TransactionKind::AvailabilityReport { core: 1, data_hash: BlockHash::zero(), chunks: vec![] },
            "Availability report must include chunks",
        ),
        (TransactionKind::DisputeInitiate { core: 1, block_number: 3, evidence: vec![] }, "Dispute must include evidence"),
    ];
    for (kind, msg) in cases {
        let tx = tx_with(100, 1, kind);
        assert_eq!(tx_message(tx.validate_kind()), msg);
        assert_eq!(tx_message(tx.validate()), msg);
    }
    let vote = TransactionKind::DisputeVote { dispute_id: BlockHash::zero(), vote: true, justification: vec![] };
    assert!(tx_with(100, 0, vote).validate().is_ok());
}

#[test]
fn kind_names_types_and_targets() {
    let kinds = vec![
        TransactionKind::Transfer { to: dummy_account(), amount: Balance(1) },
        TransactionKind::ServiceCall { service: ServiceId(4), method: 0, data: vec![] },
        TransactionKind::ServiceDeploy { code: vec![1], initial_state: vec![] },
        TransactionKind::ServiceUpdate { service: ServiceId(5), code: vec![1] },
        TransactionKind::ValidatorRegister {
            keys: ValidatorKeys::new(
                Ed25519PublicKey([0u8; 32]),
                bandersnatch::PublicKey([0u8; 32]),
                Ed25519PublicKey([0u8; 32]),
                Ed25519PublicKey([0u8; 32]),
            ),
            stake: Balance(1),
        },
        TransactionKind::ValidatorUnregister,
        TransactionKind::Delegate { validator: dummy_account(), amount: Balance(1) },
        TransactionKind::Undelegate { validator: dummy_account(), amount: Balance(1) },
        TransactionKind::CoreAssign { core: 3, service: ServiceId(6), duration: 1 },
        TransactionKind::AvailabilityReport { core: 4, data_hash: BlockHash::zero(), chunks: vec![vec![1]] },
        TransactionKind::DisputeInitiate { core: 5, block_number: 1, evidence: vec![1] },
        TransactionKind::DisputeVote { dispute_id: BlockHash::zero(), vote: false, justification: vec![] },
    ];
    let names = [
        "Transfer",
        "ServiceCall",
        "ServiceDeploy",
        "ServiceUpdate",
        "ValidatorRegister",
        "ValidatorUnregister",
        "Delegate",
        "Undelegate",
        "CoreAssign",
        "AvailabilityReport",
        "DisputeInitiate",
        "DisputeVote",
    ];
    for (i, kind) in kinds.iter().enumerate() {
        assert_eq!(kind.transaction_type() as usize, i);
        assert_eq!(kind.transaction_type_name(), names[i]);
        assert_eq!(kind.encode()[0] as usize, i);
        assert_eq!(kind.requires_stake(), i == 4 || i == 6);
    }
    assert_eq!(kinds[1].target_service(), Some(ServiceId(4)));
    assert_eq!(kinds[3].target_service(), Some(ServiceId(5)));
    assert_eq!(kinds[8].target_service(), Some(ServiceId(6)));
    assert_eq!(kinds[0].target_service(), None);
    assert_eq!(kinds[8].target_core(), Some(3));
    assert_eq!(kinds[9].target_core(), Some(4));
    assert_eq!(kinds[10].target_core(), Some(5));
    assert_eq!(kinds[1].target_core(), None);
}

#[test]
fn weights_of_every_kind() {
    let w = |kind: TransactionKind| tx_with(100, 1, kind).weight().0;
    assert_eq!(w(TransactionKind::ServiceDeploy { code: vec![0; 3], initial_state: vec![0; 4] }), 10_000 + 100_000 + 150 + 40);
    assert_eq!(w(TransactionKind::ServiceUpdate { service: ServiceId(1), code: vec![0; 2] }), 10_000 + 80_000 + 100);
    assert_eq!(w(TransactionKind::ValidatorUnregister), 60_000);
    assert_eq!(w(TransactionKind::Delegate { validator: dummy_account(), amount: Balance(1) }), 40_000);
    assert_eq!(w(TransactionKind::CoreAssign { core: 1, service: ServiceId(1), duration: 1 }), 50_000);
    assert_eq!(
        w(TransactionKind::AvailabilityReport { core: 1, data_hash: BlockHash::zero(), chunks: vec![vec![0; 3], vec![0; 7]] }),
        10_000 + 60_000 + 50
    );
    assert_eq!(w(TransactionKind::DisputeInitiate { core: 1, block_number: 1, evidence: vec![0; 2] }), 10_000 + 150_000 + 40);
    assert_eq!(
        w(TransactionKind::DisputeVote { dispute_id: BlockHash::zero(), vote: true, justification: vec![0; 3] }),
        10_000 + 30_000 + 30
    );
}

#[test]
fn signature_message_layout() {
    let tx = Transaction::new(
        AccountId::from([1u8; 32]),
        0x0102,
        Gas(3),
        4,
        TransactionKind::ValidatorUnregister,
        dummy_signature(),
    );
    let mut expected = vec![1u8; 32];
    expected.extend_from_slice(&0x0102u64.to_le_bytes());
    expected.extend_from_slice(&3u64.to_le_bytes());
    expected.extend_from_slice(&4u64.to_le_bytes());
    expected.push(5);
    assert_eq!(tx.signature_message(), expected);
    assert_eq!(tx.verify_signature(), Ok(true));
}

#[test]
fn transaction_encoding_and_hash() {
    let tx = tx_with(
        21000,
        20,
        TransactionKind::ServiceCall { service: ServiceId(9), method: 3, data: vec![7, 8] },
    );
    let kind_bytes = parity_scale_codec::Encode::encode(&(1u8, 9u32, 3u32, vec![7u8, 8]));
    let mut expected = parity_scale_codec::Encode::encode(&([1u8; 32], 7u64, 21000u64, 20u64));
    expected.extend_from_slice(&kind_bytes);
    expected.push(0);
    expected.extend_from_slice(&[0u8; 64]);
    assert_eq!(tx.encode(), expected);
    assert_eq!(&tx.hash().0, blake3::hash(&expected).as_bytes());
}

#[test]
fn pool_priority_grows_and_expiry_persists() {
    let tx = tx_with(100, 7, TransactionKind::ValidatorUnregister);
    let mut entry = TransactionPoolEntry::new(tx, Timestamp(10_000));
    assert_eq!(entry.propagation_count, 0);
    entry.update_priority(Timestamp(5_000));
    assert_eq!(entry.priority, 7);
    entry.update_priority(Timestamp(13_999));
    assert_eq!(entry.priority, 10);
    entry.update_priority(Timestamp(14_000));
    assert_eq!(entry.priority, 11);
    assert!(!entry.is_expired(Timestamp(10_500), 500));
    assert!(entry.is_expired(Timestamp(10_501), 500));
    assert!(entry.is_expired(Timestamp(99_999), 500));
}

#[test]
fn every_kind_decodes_from_its_encoding() {
    let keys = ValidatorKeys::new(
        Ed25519PublicKey::from([1; 32]),
        bandersnatch::PublicKey::from([2; 32]),
        Ed25519PublicKey::from([3; 32]),
        Ed25519PublicKey::from([4; 32]),
    );
    let kinds = vec![
        TransactionKind::Transfer { to: AccountId::from([2; 32]), amount: Balance(7) },
        TransactionKind::ServiceCall { service: ServiceId(3), method: 9, data: vec![1, 2] },
        TransactionKind::ServiceDeploy { code: vec![0, 97, 115, 109], initial_state: vec![] },
        TransactionKind::ServiceUpdate { service: ServiceId(4), code: vec![1] },
        TransactionKind::ValidatorRegister { keys, stake: Balance(1 << 70) },
        TransactionKind::ValidatorUnregister,
        TransactionKind::Delegate { validator: AccountId::from([5; 32]), amount: Balance(8) },
        TransactionKind::Undelegate { validator: AccountId::from([6; 32]), amount: Balance(9) },
        TransactionKind::CoreAssign { core: 2, service: ServiceId(5), duration: 100 },
        TransactionKind::AvailabilityReport { core: 1, data_hash: BlockHash([7; 32]), chunks: vec![vec![1], vec![]] },
        TransactionKind::DisputeInitiate { core: 3, block_number: 44, evidence: vec![1, 1] },
        TransactionKind::DisputeVote { dispute_id: BlockHash([8; 32]), vote: true, justification: vec![] },
    ];
    for kind in kinds {
        let bytes = kind.encode();
        assert_eq!(bytes[0], kind.transaction_type());
        let mut input: &[u8] = &bytes;
        assert_eq!(TransactionKind::decode(&mut input), Ok(kind));
        assert!(input.is_empty());
    }
}

#[test]
fn unknown_kind_tag_does_not_decode() {
    let mut input: &[u8] = &[12, 0, 0];
    assert!(matches!(TransactionKind::decode(&mut input), Err(PrimitiveError::CodecError(_))));
    let mut sig: &[u8] = &[3, 0];
    assert!(matches!(Signature::decode(&mut sig), Err(PrimitiveError::CodecError(_))));
}

#[test]
fn transaction_decodes_from_its_encoding() {
    let tx = Transaction::new(
        AccountId::from([1; 32]),
        5,
        Gas(21_000),
        3,
        TransactionKind::ServiceCall { service: ServiceId(2), method: 1, data: vec![4, 5, 6] },
        Signature::Ecdsa([9; 65]),
    );
    assert_eq!(Transaction::decode(&mut &tx.encode()[..]), Ok(tx));
}

#[test]
fn kind_decode_errors_name_the_variant() {
    match TransactionKind::decode(&mut &[12u8][..]) {
        Err(PrimitiveError::CodecError(m)) => assert_eq!(m, "Could not decode `TransactionKind`, variant doesn't exist"),
        other => panic!("expected a codec error, got {:?}", other),
    }
    match TransactionKind::decode(&mut &[][..]) {
        Err(PrimitiveError::CodecError(m)) => assert_eq!(
            m,
            "Could not decode `TransactionKind`, failed to read variant byte:\n\tNot enough data to fill buffer\n"
        ),
        other => panic!("expected a codec error, got {:?}", other),
    }
    match TransactionKind::decode(&mut &[0u8, 1][..]) {
        Err(PrimitiveError::CodecError(m)) => assert_eq!(
            m,
            "Could not decode `TransactionKind::Transfer::to`:\n\tCould not decode `AccountId.0`:\n\t\tNot enough data to fill buffer\n"
        ),
        other => panic!("expected a codec error, got {:?}", other),
    }
}
