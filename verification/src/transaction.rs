//! # JAM Protocol Transaction Types
//!
//! Transaction types and structures for the JAM protocol as defined in the Gray Paper.
//! This module contains all transaction-related data structures and their validation logic.

use vstd::prelude::*;

use crate::crypto::bandersnatch;
use crate::crypto::hashing::{blake3_digest, blake3_of};
use crate::crypto::Ed25519PublicKey;
use crate::types::{saturating_diff, AccountId, Balance, Gas, ServiceId, Signature, Timestamp, Weight};
use crate::utils::codec::{Canonical, le_bytes, lemma_starts_with_tag, push_bytes, push_le_bytes, starts_with, Decode, Encode, decode_field, decode_extend, scale_u8, DecodeError, field_step, extend_step, step_error, error_from, error_desc, chained, causes, decoded};
use crate::{fail, ErrorKind, Failure, PrimitiveError, PrimitiveResult, Validate};

verus! {

/// Transaction nonce type
pub type Nonce = u64;

/// Transaction type identifier
pub type TransactionType = u8;

/// Gas price type (in smallest unit)
pub type GasPrice = u64;

/// Transaction kinds supported by JAM
#[derive(Debug, Clone, PartialEq, Eq)]
pub enum TransactionKind {
    /// Transfer tokens between accounts
    Transfer {
        /// Destination account
        to: AccountId,
        /// Amount to transfer
        amount: Balance,
    },
    /// Call a service method
    ServiceCall {
        /// Target service
        service: ServiceId,
        /// Method identifier
        method: u32,
        /// Call data
        data: Vec<u8>,
    },
    /// Deploy a new service
    ServiceDeploy {
        /// Service code (WebAssembly)
        code: Vec<u8>,
        /// Initial service state
        initial_state: Vec<u8>,
    },
    /// Update service code
    ServiceUpdate {
        /// Service to update
        service: ServiceId,
        /// New service code
        code: Vec<u8>,
    },
    /// Register as a validator
    ValidatorRegister {
        /// Validator public keys
        keys: ValidatorKeys,
        /// Stake amount
        stake: Balance,
    },
    /// Unregister as a validator
    ValidatorUnregister,
    /// Delegate stake to a validator
    Delegate {
        /// Target validator
        validator: AccountId,
        /// Amount to delegate
        amount: Balance,
    },
    /// Undelegate stake from a validator
    Undelegate {
        /// Target validator
        validator: AccountId,
        /// Amount to undelegate
        amount: Balance,
    },
    /// Core assignment transaction
    CoreAssign {
        /// Core index to assign
        core: u16,
        /// Service to assign to core
        service: ServiceId,
        /// Assignment duration
        duration: u64,
    },
    /// Availability report
    AvailabilityReport {
        /// Core index
        core: u16,
        /// Availability data hash
        data_hash: crate::types::Hash,
        /// Erasure coded chunks
        chunks: Vec<Vec<u8>>,
    },
    /// Dispute initiation
    DisputeInitiate {
        /// Disputed core
        core: u16,
        /// Block number being disputed
        block_number: u32,
        /// Dispute evidence
        evidence: Vec<u8>,
    },
    /// Dispute vote
    DisputeVote {
        /// Dispute ID
        dispute_id: crate::types::Hash,
        /// Vote (true = valid, false = invalid)
        vote: bool,
        /// Justification
        justification: Vec<u8>,
    },
}

/// The total number of bytes in a sequence of chunks.
pub open spec fn total_len(chunks: Seq<Vec<u8>>) -> nat
    decreases chunks.len(),
{
    if chunks.len() == 0 {
        0nat
    } else {
        total_len(chunks.drop_last()) + chunks.last()@.len()
    }
}

proof fn lemma_total_len_prefix(chunks: Seq<Vec<u8>>, i: int)
    requires
        0 <= i <= chunks.len(),
    ensures
        total_len(chunks.take(i)) <= total_len(chunks),
    decreases chunks.len(),
{
    if i < chunks.len() {
        assert(chunks.drop_last().take(i) =~= chunks.take(i));
        lemma_total_len_prefix(chunks.drop_last(), i);
    } else {
        assert(chunks.take(i) =~= chunks);
        if chunks.len() > 0 {
            lemma_total_len_prefix(chunks.drop_last(), i - 1);
            assert(chunks.drop_last().take(i - 1) =~= chunks.drop_last());
        }
    }
}

/// The failure of a transaction rule with the given message.
pub open spec fn tx_fail(msg: Seq<char>) -> Option<Failure> {
    fail(ErrorKind::InvalidTransaction, msg)
}

fn invalid_transaction(msg: &str) -> (out: PrimitiveError)
    ensures
        out.failure() == (ErrorKind::InvalidTransaction, msg@),
{
    PrimitiveError::InvalidTransaction(String::from_str(msg))
}

impl TransactionKind {
    /// The encoding of the fields of the variant, in declaration order.
    pub open spec fn payload_encoding(&self) -> Seq<u8> {
        match self {
            TransactionKind::Transfer { to, amount } => to.encoding() + amount.encoding(),
            TransactionKind::ServiceCall { service, method, data } => service.encoding()
                + method.encoding() + data.encoding(),
            TransactionKind::ServiceDeploy { code, initial_state } => code.encoding()
                + initial_state.encoding(),
            TransactionKind::ServiceUpdate { service, code } => service.encoding()
                + code.encoding(),
            TransactionKind::ValidatorRegister { keys, stake } => keys.encoding()
                + stake.encoding(),
            TransactionKind::ValidatorUnregister => Seq::empty(),
            TransactionKind::Delegate { validator, amount } => validator.encoding()
                + amount.encoding(),
            TransactionKind::Undelegate { validator, amount } => validator.encoding()
                + amount.encoding(),
            TransactionKind::CoreAssign { core, service, duration } => core.encoding()
                + service.encoding() + duration.encoding(),
            TransactionKind::AvailabilityReport { core, data_hash, chunks } => core.encoding()
                + data_hash.encoding() + chunks.encoding(),
            TransactionKind::DisputeInitiate { core, block_number, evidence } => core.encoding()
                + block_number.encoding() + evidence.encoding(),
            TransactionKind::DisputeVote { dispute_id, vote, justification } =>
                dispute_id.encoding() + vote.encoding() + justification.encoding(),
        }
    }

    /// The type identifier of the kind: its position in the declaration.
    pub open spec fn spec_transaction_type(&self) -> u8 {
        match self {
            TransactionKind::Transfer { .. } => 0,
            TransactionKind::ServiceCall { .. } => 1,
            TransactionKind::ServiceDeploy { .. } => 2,
            TransactionKind::ServiceUpdate { .. } => 3,
            TransactionKind::ValidatorRegister { .. } => 4,
            TransactionKind::ValidatorUnregister => 5,
            TransactionKind::Delegate { .. } => 6,
            TransactionKind::Undelegate { .. } => 7,
            TransactionKind::CoreAssign { .. } => 8,
            TransactionKind::AvailabilityReport { .. } => 9,
            TransactionKind::DisputeInitiate { .. } => 10,
            TransactionKind::DisputeVote { .. } => 11,
        }
    }

    /// The name of the kind: the name of its variant.
    pub open spec fn spec_name(&self) -> Seq<char> {
        match self {
            TransactionKind::Transfer { .. } => "Transfer"@,
            TransactionKind::ServiceCall { .. } => "ServiceCall"@,
            TransactionKind::ServiceDeploy { .. } => "ServiceDeploy"@,
            TransactionKind::ServiceUpdate { .. } => "ServiceUpdate"@,
            TransactionKind::ValidatorRegister { .. } => "ValidatorRegister"@,
            TransactionKind::ValidatorUnregister => "ValidatorUnregister"@,
            TransactionKind::Delegate { .. } => "Delegate"@,
            TransactionKind::Undelegate { .. } => "Undelegate"@,
            TransactionKind::CoreAssign { .. } => "CoreAssign"@,
            TransactionKind::AvailabilityReport { .. } => "AvailabilityReport"@,
            TransactionKind::DisputeInitiate { .. } => "DisputeInitiate"@,
            TransactionKind::DisputeVote { .. } => "DisputeVote"@,
        }
    }

    /// Get the transaction type identifier
    pub fn transaction_type(&self) -> (out: TransactionType)
        ensures
            out == self.spec_transaction_type(),
    {
        match self {
            TransactionKind::Transfer { .. } => 0,
            TransactionKind::ServiceCall { .. } => 1,
            TransactionKind::ServiceDeploy { .. } => 2,
            TransactionKind::ServiceUpdate { .. } => 3,
            TransactionKind::ValidatorRegister { .. } => 4,
            TransactionKind::ValidatorUnregister => 5,
            TransactionKind::Delegate { .. } => 6,
            TransactionKind::Undelegate { .. } => 7,
            TransactionKind::CoreAssign { .. } => 8,
            TransactionKind::AvailabilityReport { .. } => 9,
            TransactionKind::DisputeInitiate { .. } => 10,
            TransactionKind::DisputeVote { .. } => 11,
        }
    }

    /// Get human-readable transaction type name
    pub fn transaction_type_name(&self) -> (out: &'static str)
        ensures
            out@ == self.spec_name(),
    {
        match self {
            TransactionKind::Transfer { .. } => "Transfer",
            TransactionKind::ServiceCall { .. } => "ServiceCall",
            TransactionKind::ServiceDeploy { .. } => "ServiceDeploy",
            TransactionKind::ServiceUpdate { .. } => "ServiceUpdate",
            TransactionKind::ValidatorRegister { .. } => "ValidatorRegister",
            TransactionKind::ValidatorUnregister => "ValidatorUnregister",
            TransactionKind::Delegate { .. } => "Delegate",
            TransactionKind::Undelegate { .. } => "Undelegate",
            TransactionKind::CoreAssign { .. } => "CoreAssign",
            TransactionKind::AvailabilityReport { .. } => "AvailabilityReport",
            TransactionKind::DisputeInitiate { .. } => "DisputeInitiate",
            TransactionKind::DisputeVote { .. } => "DisputeVote",
        }
    }

    /// Check if this transaction requires stake
    pub fn requires_stake(&self) -> (out: bool)
        ensures
            out == (self is ValidatorRegister || self is Delegate),
    {
        match self {
            TransactionKind::ValidatorRegister { .. } | TransactionKind::Delegate { .. } => true,
            _ => false,
        }
    }

    /// Get the target service ID if applicable
    pub fn target_service(&self) -> (out: Option<ServiceId>)
        ensures
            out == match self {
                TransactionKind::ServiceCall { service, .. } => Some(*service),
                TransactionKind::ServiceUpdate { service, .. } => Some(*service),
                TransactionKind::CoreAssign { service, .. } => Some(*service),
                _ => None,
            },
    {
        match self {
            TransactionKind::ServiceCall { service, .. }
            | TransactionKind::ServiceUpdate { service, .. }
            | TransactionKind::CoreAssign { service, .. } => Some(*service),
            _ => None,
        }
    }

    /// Get the core index if applicable
    pub fn target_core(&self) -> (out: Option<u16>)
        ensures
            out == match self {
                TransactionKind::CoreAssign { core, .. } => Some(*core),
                TransactionKind::AvailabilityReport { core, .. } => Some(*core),
                TransactionKind::DisputeInitiate { core, .. } => Some(*core),
                _ => None,
            },
    {
        match self {
            TransactionKind::CoreAssign { core, .. }
            | TransactionKind::AvailabilityReport { core, .. }
            | TransactionKind::DisputeInitiate { core, .. } => Some(*core),
            _ => None,
        }
    }

    /// The weight that the kind adds to the base weight of a transaction.
    pub open spec fn kind_weight(&self) -> nat {
        match self {
            TransactionKind::Transfer { .. } => 25_000nat,
            TransactionKind::ServiceCall { data, .. } => 50_000 + data@.len() * 10,
            TransactionKind::ServiceDeploy { code, initial_state } => 100_000 + code@.len() * 50
                + initial_state@.len() * 10,
            TransactionKind::ServiceUpdate { code, .. } => 80_000 + code@.len() * 50,
            TransactionKind::ValidatorRegister { .. } => 200_000,
            TransactionKind::ValidatorUnregister => 50_000,
            TransactionKind::Delegate { .. } => 30_000,
            TransactionKind::Undelegate { .. } => 30_000,
            TransactionKind::CoreAssign { .. } => 40_000,
            TransactionKind::AvailabilityReport { chunks, .. } => 60_000 + total_len(chunks@) * 5,
            TransactionKind::DisputeInitiate { evidence, .. } => 150_000 + evidence@.len() * 20,
            TransactionKind::DisputeVote { justification, .. } => 30_000 + justification@.len()
                * 10,
        }
    }

    /// The first kind-specific rule that the kind breaks, if any.
    pub open spec fn kind_failure(&self) -> Option<Failure> {
        match self {
            TransactionKind::Transfer { amount, .. } => if amount.0 == 0 {
                tx_fail("Transfer amount cannot be zero"@)
            } else {
                None
            },
            TransactionKind::ServiceCall { data, .. } => if data@.len() > 1024 * 1024 {
                tx_fail("Service call data too large"@)
            } else {
                None
            },
            TransactionKind::ServiceDeploy { code, initial_state } => if code@.len() == 0 {
                tx_fail("Service code cannot be empty"@)
            } else if code@.len() > 5 * 1024 * 1024 {
                tx_fail("Service code too large"@)
            } else if initial_state@.len() > 1024 * 1024 {
                tx_fail("Initial state too large"@)
            } else {
                None
            },
            TransactionKind::ServiceUpdate { code, .. } => if code@.len() == 0 {
                tx_fail("Service code cannot be empty"@)
            } else if code@.len() > 5 * 1024 * 1024 {
                tx_fail("Service code too large"@)
            } else {
                None
            },
            TransactionKind::ValidatorRegister { stake, .. } => if stake.0 == 0 {
                tx_fail("Validator stake cannot be zero"@)
            } else {
                None
            },
            TransactionKind::Delegate { amount, .. } => if amount.0 == 0 {
                tx_fail("Delegation amount cannot be zero"@)
            } else {
                None
            },
            TransactionKind::Undelegate { amount, .. } => if amount.0 == 0 {
                tx_fail("Delegation amount cannot be zero"@)
            } else {
                None
            },
            TransactionKind::CoreAssign { duration, .. } => if *duration == 0 {
                tx_fail("Core assignment duration cannot be zero"@)
            } else {
                None
            },
            TransactionKind::AvailabilityReport { chunks, .. } => if chunks@.len() == 0 {
                tx_fail("Availability report must include chunks"@)
            } else {
                None
            },
            TransactionKind::DisputeInitiate { evidence, .. } => if evidence@.len() == 0 {
                tx_fail("Dispute must include evidence"@)
            } else {
                None
            },
            _ => None,
        }
    }
}

impl Encode for TransactionKind {
    open spec fn encodable(&self) -> bool {
        match self {
            TransactionKind::ServiceCall { data, .. } => data.encodable(),
            TransactionKind::ServiceDeploy { code, initial_state } => code.encodable()
                && initial_state.encodable(),
            TransactionKind::ServiceUpdate { code, .. } => code.encodable(),
            TransactionKind::AvailabilityReport { chunks, .. } => chunks.encodable(),
            TransactionKind::DisputeInitiate { evidence, .. } => evidence.encodable(),
            TransactionKind::DisputeVote { justification, .. } => justification.encodable(),
            _ => true,
        }
    }

    open spec fn encoding(&self) -> Seq<u8> {
        seq![self.spec_transaction_type()] + self.payload_encoding()
    }

    fn encode_to(&self, dest: &mut Vec<u8>) {
        let tag = self.transaction_type();
        dest.push(tag);
        match self {
            TransactionKind::Transfer { to, amount } => {
                to.encode_to(dest);
                amount.encode_to(dest);
            },
            TransactionKind::ServiceCall { service, method, data } => {
                service.encode_to(dest);
                method.encode_to(dest);
                data.encode_to(dest);
            },
            TransactionKind::ServiceDeploy { code, initial_state } => {
                code.encode_to(dest);
                initial_state.encode_to(dest);
            },
            TransactionKind::ServiceUpdate { service, code } => {
                service.encode_to(dest);
                code.encode_to(dest);
            },
            TransactionKind::ValidatorRegister { keys, stake } => {
                keys.encode_to(dest);
                stake.encode_to(dest);
            },
            TransactionKind::ValidatorUnregister => {},
            TransactionKind::Delegate { validator, amount } => {
                validator.encode_to(dest);
                amount.encode_to(dest);
            },
            TransactionKind::Undelegate { validator, amount } => {
                validator.encode_to(dest);
                amount.encode_to(dest);
            },
            TransactionKind::CoreAssign { core, service, duration } => {
                core.encode_to(dest);
                service.encode_to(dest);
                duration.encode_to(dest);
            },
            TransactionKind::AvailabilityReport { core, data_hash, chunks } => {
                core.encode_to(dest);
                data_hash.encode_to(dest);
                chunks.encode_to(dest);
            },
            TransactionKind::DisputeInitiate { core, block_number, evidence } => {
                core.encode_to(dest);
                block_number.encode_to(dest);
                evidence.encode_to(dest);
            },
            TransactionKind::DisputeVote { dispute_id, vote, justification } => {
                dispute_id.encode_to(dest);
                vote.encode_to(dest);
                justification.encode_to(dest);
            },
        }
        assert(dest@ =~= old(dest)@ + self.encoding());
    }
}

impl TransactionKind {
    /// Decodes the fields of the variant with type identifier 0, whose tag
    /// byte is at `pos`.
    #[verifier::rlimit(50)]
    fn decode_transfer(bytes: &[u8], pos: usize) -> (out: Result<(TransactionKind, usize), DecodeError>)
        requires
            pos < bytes@.len(),
            bytes@[pos as int] == 0,
        ensures
            decoded(bytes@, pos as int, out),
            match out {
                Ok(_) => true,
                Err(e) => causes(e) == TransactionKind::decode_error(bytes@, pos as int),
            },
    {
        assert(pos < bytes.len());
        let ghost r0 = field_step::<AccountId>(bytes@, pos as int + 1, "Could not decode `TransactionKind::Transfer::to`"@);
        let r = decode_field::<AccountId>(bytes, pos + 1, "Could not decode `TransactionKind::Transfer::to`");
        let ghost r1 = extend_step::<Balance>(bytes@, r0, "Could not decode `TransactionKind::Transfer::amount`"@);
        let r = decode_extend::<AccountId, Balance>(bytes, pos + 1, r, Ghost(r0), "Could not decode `TransactionKind::Transfer::amount`");
        match r {
            Ok((t, end)) => {
                let (to, amount) = t;
                let v = TransactionKind::Transfer { to, amount };
                assert(v.payload_encoding() == t.encoding());
                assert(bytes@.subrange(pos as int, end as int) =~= seq![0u8]
                    + bytes@.subrange(pos + 1, end as int));
                Ok((v, end))
            },
            Err(e) => {
                assert forall|v: TransactionKind| v.encodable() implies !starts_with(
                    bytes@.skip(pos as int),
                    #[trigger] v.encoding(),
                ) by {
                    if starts_with(bytes@.skip(pos as int), v.encoding()) {
                        lemma_starts_with_tag(bytes@.skip(pos as int), v.spec_transaction_type(), v.payload_encoding());
                        assert(bytes@.skip(pos as int).skip(1) =~= bytes@.skip(pos + 1));
                        if let TransactionKind::Transfer { to, amount } = v {
                            assert((to, amount).encoding() == v.payload_encoding());
                            assert((to, amount).encodable());
                        }
                    }
                }
                Err(e)
            },
        }
    }

    /// Decodes the fields of the variant with type identifier 1, whose tag
    /// byte is at `pos`.
    #[verifier::rlimit(50)]
    fn decode_service_call(bytes: &[u8], pos: usize) -> (out: Result<(TransactionKind, usize), DecodeError>)
        requires
            pos < bytes@.len(),
            bytes@[pos as int] == 1,
        ensures
            decoded(bytes@, pos as int, out),
            match out {
                Ok(_) => true,
                Err(e) => causes(e) == TransactionKind::decode_error(bytes@, pos as int),
            },
    {
        assert(pos < bytes.len());
        let ghost r0 = field_step::<ServiceId>(bytes@, pos as int + 1, "Could not decode `TransactionKind::ServiceCall::service`"@);
        let r = decode_field::<ServiceId>(bytes, pos + 1, "Could not decode `TransactionKind::ServiceCall::service`");
        let ghost r1 = extend_step::<u32>(bytes@, r0, "Could not decode `TransactionKind::ServiceCall::method`"@);
        let r = decode_extend::<ServiceId, u32>(bytes, pos + 1, r, Ghost(r0), "Could not decode `TransactionKind::ServiceCall::method`");
        let ghost r2 = extend_step::<Vec<u8>>(bytes@, r1, "Could not decode `TransactionKind::ServiceCall::data`"@);
        let r = decode_extend::<(ServiceId, u32), Vec<u8>>(bytes, pos + 1, r, Ghost(r1), "Could not decode `TransactionKind::ServiceCall::data`");
        match r {
            Ok((t, end)) => {
                let ((service, method), data) = t;
                let v = TransactionKind::ServiceCall { service, method, data };
                assert(v.payload_encoding() == t.encoding());
                assert(bytes@.subrange(pos as int, end as int) =~= seq![1u8]
                    + bytes@.subrange(pos + 1, end as int));
                Ok((v, end))
            },
            Err(e) => {
                assert forall|v: TransactionKind| v.encodable() implies !starts_with(
                    bytes@.skip(pos as int),
                    #[trigger] v.encoding(),
                ) by {
                    if starts_with(bytes@.skip(pos as int), v.encoding()) {
                        lemma_starts_with_tag(bytes@.skip(pos as int), v.spec_transaction_type(), v.payload_encoding());
                        assert(bytes@.skip(pos as int).skip(1) =~= bytes@.skip(pos + 1));
                        if let TransactionKind::ServiceCall { service, method, data } = v {
                            assert(((service, method), data).encoding() == v.payload_encoding());
                            assert(((service, method), data).encodable());
                        }
                    }
                }
                Err(e)
            },
        }
    }

    /// Decodes the fields of the variant with type identifier 2, whose tag
    /// byte is at `pos`.
    #[verifier::rlimit(50)]
    fn decode_service_deploy(bytes: &[u8], pos: usize) -> (out: Result<(TransactionKind, usize), DecodeError>)
        requires
            pos < bytes@.len(),
            bytes@[pos as int] == 2,
        ensures
            decoded(bytes@, pos as int, out),
            match out {
                Ok(_) => true,
                Err(e) => causes(e) == TransactionKind::decode_error(bytes@, pos as int),
            },
    {
        assert(pos < bytes.len());
        let ghost r0 = field_step::<Vec<u8>>(bytes@, pos as int + 1, "Could not decode `TransactionKind::ServiceDeploy::code`"@);
        let r = decode_field::<Vec<u8>>(bytes, pos + 1, "Could not decode `TransactionKind::ServiceDeploy::code`");
        let ghost r1 = extend_step::<Vec<u8>>(bytes@, r0, "Could not decode `TransactionKind::ServiceDeploy::initial_state`"@);
        let r = decode_extend::<Vec<u8>, Vec<u8>>(bytes, pos + 1, r, Ghost(r0), "Could not decode `TransactionKind::ServiceDeploy::initial_state`");
        match r {
            Ok((t, end)) => {
                let (code, initial_state) = t;
                let v = TransactionKind::ServiceDeploy { code, initial_state };
                assert(v.payload_encoding() == t.encoding());
                assert(bytes@.subrange(pos as int, end as int) =~= seq![2u8]
                    + bytes@.subrange(pos + 1, end as int));
                Ok((v, end))
            },
            Err(e) => {
                assert forall|v: TransactionKind| v.encodable() implies !starts_with(
                    bytes@.skip(pos as int),
                    #[trigger] v.encoding(),
                ) by {
                    if starts_with(bytes@.skip(pos as int), v.encoding()) {
                        lemma_starts_with_tag(bytes@.skip(pos as int), v.spec_transaction_type(), v.payload_encoding());
                        assert(bytes@.skip(pos as int).skip(1) =~= bytes@.skip(pos + 1));
                        if let TransactionKind::ServiceDeploy { code, initial_state } = v {
                            assert((code, initial_state).encoding() == v.payload_encoding());
                            assert((code, initial_state).encodable());
                        }
                    }
                }
                Err(e)
            },
        }
    }

    /// Decodes the fields of the variant with type identifier 3, whose tag
    /// byte is at `pos`.
    #[verifier::rlimit(50)]
    fn decode_service_update(bytes: &[u8], pos: usize) -> (out: Result<(TransactionKind, usize), DecodeError>)
        requires
            pos < bytes@.len(),
            bytes@[pos as int] == 3,
        ensures
            decoded(bytes@, pos as int, out),
            match out {
                Ok(_) => true,
                Err(e) => causes(e) == TransactionKind::decode_error(bytes@, pos as int),
            },
    {
        assert(pos < bytes.len());
        let ghost r0 = field_step::<ServiceId>(bytes@, pos as int + 1, "Could not decode `TransactionKind::ServiceUpdate::service`"@);
        let r = decode_field::<ServiceId>(bytes, pos + 1, "Could not decode `TransactionKind::ServiceUpdate::service`");
        let ghost r1 = extend_step::<Vec<u8>>(bytes@, r0, "Could not decode `TransactionKind::ServiceUpdate::code`"@);
        let r = decode_extend::<ServiceId, Vec<u8>>(bytes, pos + 1, r, Ghost(r0), "Could not decode `TransactionKind::ServiceUpdate::code`");
        match r {
            Ok((t, end)) => {
                let (service, code) = t;
                let v = TransactionKind::ServiceUpdate { service, code };
                assert(v.payload_encoding() == t.encoding());
                assert(bytes@.subrange(pos as int, end as int) =~= seq![3u8]
                    + bytes@.subrange(pos + 1, end as int));
                Ok((v, end))
            },
            Err(e) => {
                assert forall|v: TransactionKind| v.encodable() implies !starts_with(
                    bytes@.skip(pos as int),
                    #[trigger] v.encoding(),
                ) by {
                    if starts_with(bytes@.skip(pos as int), v.encoding()) {
                        lemma_starts_with_tag(bytes@.skip(pos as int), v.spec_transaction_type(), v.payload_encoding());
                        assert(bytes@.skip(pos as int).skip(1) =~= bytes@.skip(pos + 1));
                        if let TransactionKind::ServiceUpdate { service, code } = v {
                            assert((service, code).encoding() == v.payload_encoding());
                            assert((service, code).encodable());
                        }
                    }
                }
                Err(e)
            },
        }
    }

    /// Decodes the fields of the variant with type identifier 4, whose tag
    /// byte is at `pos`.
    #[verifier::rlimit(50)]
    fn decode_validator_register(bytes: &[u8], pos: usize) -> (out: Result<(TransactionKind, usize), DecodeError>)
        requires
            pos < bytes@.len(),
            bytes@[pos as int] == 4,
        ensures
            decoded(bytes@, pos as int, out),
            match out {
                Ok(_) => true,
                Err(e) => causes(e) == TransactionKind::decode_error(bytes@, pos as int),
            },
    {
        assert(pos < bytes.len());
        let ghost r0 = field_step::<ValidatorKeys>(bytes@, pos as int + 1, "Could not decode `TransactionKind::ValidatorRegister::keys`"@);
        let r = decode_field::<ValidatorKeys>(bytes, pos + 1, "Could not decode `TransactionKind::ValidatorRegister::keys`");
        let ghost r1 = extend_step::<Balance>(bytes@, r0, "Could not decode `TransactionKind::ValidatorRegister::stake`"@);
        let r = decode_extend::<ValidatorKeys, Balance>(bytes, pos + 1, r, Ghost(r0), "Could not decode `TransactionKind::ValidatorRegister::stake`");
        match r {
            Ok((t, end)) => {
                let (keys, stake) = t;
                let v = TransactionKind::ValidatorRegister { keys, stake };
                assert(v.payload_encoding() == t.encoding());
                assert(bytes@.subrange(pos as int, end as int) =~= seq![4u8]
                    + bytes@.subrange(pos + 1, end as int));
                Ok((v, end))
            },
            Err(e) => {
                assert forall|v: TransactionKind| v.encodable() implies !starts_with(
                    bytes@.skip(pos as int),
                    #[trigger] v.encoding(),
                ) by {
                    if starts_with(bytes@.skip(pos as int), v.encoding()) {
                        lemma_starts_with_tag(bytes@.skip(pos as int), v.spec_transaction_type(), v.payload_encoding());
                        assert(bytes@.skip(pos as int).skip(1) =~= bytes@.skip(pos + 1));
                        if let TransactionKind::ValidatorRegister { keys, stake } = v {
                            assert((keys, stake).encoding() == v.payload_encoding());
                            assert((keys, stake).encodable());
                        }
                    }
                }
                Err(e)
            },
        }
    }

    /// Decodes the fields of the variant with type identifier 6, whose tag
    /// byte is at `pos`.
    #[verifier::rlimit(50)]
    fn decode_delegate(bytes: &[u8], pos: usize) -> (out: Result<(TransactionKind, usize), DecodeError>)
        requires
            pos < bytes@.len(),
            bytes@[pos as int] == 6,
        ensures
            decoded(bytes@, pos as int, out),
            match out {
                Ok(_) => true,
                Err(e) => causes(e) == TransactionKind::decode_error(bytes@, pos as int),
            },
    {
        assert(pos < bytes.len());
        let ghost r0 = field_step::<AccountId>(bytes@, pos as int + 1, "Could not decode `TransactionKind::Delegate::validator`"@);
        let r = decode_field::<AccountId>(bytes, pos + 1, "Could not decode `TransactionKind::Delegate::validator`");
        let ghost r1 = extend_step::<Balance>(bytes@, r0, "Could not decode `TransactionKind::Delegate::amount`"@);
        let r = decode_extend::<AccountId, Balance>(bytes, pos + 1, r, Ghost(r0), "Could not decode `TransactionKind::Delegate::amount`");
        match r {
            Ok((t, end)) => {
                let (validator, amount) = t;
                let v = TransactionKind::Delegate { validator, amount };
                assert(v.payload_encoding() == t.encoding());
                assert(bytes@.subrange(pos as int, end as int) =~= seq![6u8]
                    + bytes@.subrange(pos + 1, end as int));
                Ok((v, end))
            },
            Err(e) => {
                assert forall|v: TransactionKind| v.encodable() implies !starts_with(
                    bytes@.skip(pos as int),
                    #[trigger] v.encoding(),
                ) by {
                    if starts_with(bytes@.skip(pos as int), v.encoding()) {
                        lemma_starts_with_tag(bytes@.skip(pos as int), v.spec_transaction_type(), v.payload_encoding());
                        assert(bytes@.skip(pos as int).skip(1) =~= bytes@.skip(pos + 1));
                        if let TransactionKind::Delegate { validator, amount } = v {
                            assert((validator, amount).encoding() == v.payload_encoding());
                            assert((validator, amount).encodable());
                        }
                    }
                }
                Err(e)
            },
        }
    }

    /// Decodes the fields of the variant with type identifier 7, whose tag
    /// byte is at `pos`.
    #[verifier::rlimit(50)]
    fn decode_undelegate(bytes: &[u8], pos: usize) -> (out: Result<(TransactionKind, usize), DecodeError>)
        requires
            pos < bytes@.len(),
            bytes@[pos as int] == 7,
        ensures
            decoded(bytes@, pos as int, out),
            match out {
                Ok(_) => true,
                Err(e) => causes(e) == TransactionKind::decode_error(bytes@, pos as int),
            },
    {
        assert(pos < bytes.len());
        let ghost r0 = field_step::<AccountId>(bytes@, pos as int + 1, "Could not decode `TransactionKind::Undelegate::validator`"@);
        let r = decode_field::<AccountId>(bytes, pos + 1, "Could not decode `TransactionKind::Undelegate::validator`");
        let ghost r1 = extend_step::<Balance>(bytes@, r0, "Could not decode `TransactionKind::Undelegate::amount`"@);
        let r = decode_extend::<AccountId, Balance>(bytes, pos + 1, r, Ghost(r0), "Could not decode `TransactionKind::Undelegate::amount`");
        match r {
            Ok((t, end)) => {
                let (validator, amount) = t;
                let v = TransactionKind::Undelegate { validator, amount };
                assert(v.payload_encoding() == t.encoding());
                assert(bytes@.subrange(pos as int, end as int) =~= seq![7u8]
                    + bytes@.subrange(pos + 1, end as int));
                Ok((v, end))
            },
            Err(e) => {
                assert forall|v: TransactionKind| v.encodable() implies !starts_with(
                    bytes@.skip(pos as int),
                    #[trigger] v.encoding(),
                ) by {
                    if starts_with(bytes@.skip(pos as int), v.encoding()) {
                        lemma_starts_with_tag(bytes@.skip(pos as int), v.spec_transaction_type(), v.payload_encoding());
                        assert(bytes@.skip(pos as int).skip(1) =~= bytes@.skip(pos + 1));
                        if let TransactionKind::Undelegate { validator, amount } = v {
                            assert((validator, amount).encoding() == v.payload_encoding());
                            assert((validator, amount).encodable());
                        }
                    }
                }
                Err(e)
            },
        }
    }

    /// Decodes the fields of the variant with type identifier 8, whose tag
    /// byte is at `pos`.
    #[verifier::rlimit(50)]
    fn decode_core_assign(bytes: &[u8], pos: usize) -> (out: Result<(TransactionKind, usize), DecodeError>)
        requires
            pos < bytes@.len(),
            bytes@[pos as int] == 8,
        ensures
            decoded(bytes@, pos as int, out),
            match out {
                Ok(_) => true,
                Err(e) => causes(e) == TransactionKind::decode_error(bytes@, pos as int),
            },
    {
        assert(pos < bytes.len());
        let ghost r0 = field_step::<u16>(bytes@, pos as int + 1, "Could not decode `TransactionKind::CoreAssign::core`"@);
        let r = decode_field::<u16>(bytes, pos + 1, "Could not decode `TransactionKind::CoreAssign::core`");
        let ghost r1 = extend_step::<ServiceId>(bytes@, r0, "Could not decode `TransactionKind::CoreAssign::service`"@);
        let r = decode_extend::<u16, ServiceId>(bytes, pos + 1, r, Ghost(r0), "Could not decode `TransactionKind::CoreAssign::service`");
        let ghost r2 = extend_step::<u64>(bytes@, r1, "Could not decode `TransactionKind::CoreAssign::duration`"@);
        let r = decode_extend::<(u16, ServiceId), u64>(bytes, pos + 1, r, Ghost(r1), "Could not decode `TransactionKind::CoreAssign::duration`");
        match r {
            Ok((t, end)) => {
                let ((core, service), duration) = t;
                let v = TransactionKind::CoreAssign { core, service, duration };
                assert(v.payload_encoding() == t.encoding());
                assert(bytes@.subrange(pos as int, end as int) =~= seq![8u8]
                    + bytes@.subrange(pos + 1, end as int));
                Ok((v, end))
            },
            Err(e) => {
                assert forall|v: TransactionKind| v.encodable() implies !starts_with(
                    bytes@.skip(pos as int),
                    #[trigger] v.encoding(),
                ) by {
                    if starts_with(bytes@.skip(pos as int), v.encoding()) {
                        lemma_starts_with_tag(bytes@.skip(pos as int), v.spec_transaction_type(), v.payload_encoding());
                        assert(bytes@.skip(pos as int).skip(1) =~= bytes@.skip(pos + 1));
                        if let TransactionKind::CoreAssign { core, service, duration } = v {
                            assert(((core, service), duration).encoding() == v.payload_encoding());
                            assert(((core, service), duration).encodable());
                        }
                    }
                }
                Err(e)
            },
        }
    }

    /// Decodes the fields of the variant with type identifier 9, whose tag
    /// byte is at `pos`.
    #[verifier::rlimit(50)]
    fn decode_availability_report(bytes: &[u8], pos: usize) -> (out: Result<(TransactionKind, usize), DecodeError>)
        requires
            pos < bytes@.len(),
            bytes@[pos as int] == 9,
        ensures
            decoded(bytes@, pos as int, out),
            match out {
                Ok(_) => true,
                Err(e) => causes(e) == TransactionKind::decode_error(bytes@, pos as int),
            },
    {
        assert(pos < bytes.len());
        let ghost r0 = field_step::<u16>(bytes@, pos as int + 1, "Could not decode `TransactionKind::AvailabilityReport::core`"@);
        let r = decode_field::<u16>(bytes, pos + 1, "Could not decode `TransactionKind::AvailabilityReport::core`");
        let ghost r1 = extend_step::<crate::types::Hash>(bytes@, r0, "Could not decode `TransactionKind::AvailabilityReport::data_hash`"@);
        let r = decode_extend::<u16, crate::types::Hash>(bytes, pos + 1, r, Ghost(r0), "Could not decode `TransactionKind::AvailabilityReport::data_hash`");
        let ghost r2 = extend_step::<Vec<Vec<u8>>>(bytes@, r1, "Could not decode `TransactionKind::AvailabilityReport::chunks`"@);
        let r = decode_extend::<(u16, crate::types::Hash), Vec<Vec<u8>>>(bytes, pos + 1, r, Ghost(r1), "Could not decode `TransactionKind::AvailabilityReport::chunks`");
        match r {
            Ok((t, end)) => {
                let ((core, data_hash), chunks) = t;
                let v = TransactionKind::AvailabilityReport { core, data_hash, chunks };
                assert(v.payload_encoding() == t.encoding());
                assert(bytes@.subrange(pos as int, end as int) =~= seq![9u8]
                    + bytes@.subrange(pos + 1, end as int));
                Ok((v, end))
            },
            Err(e) => {
                assert forall|v: TransactionKind| v.encodable() implies !starts_with(
                    bytes@.skip(pos as int),
                    #[trigger] v.encoding(),
                ) by {
                    if starts_with(bytes@.skip(pos as int), v.encoding()) {
                        lemma_starts_with_tag(bytes@.skip(pos as int), v.spec_transaction_type(), v.payload_encoding());
                        assert(bytes@.skip(pos as int).skip(1) =~= bytes@.skip(pos + 1));
                        if let TransactionKind::AvailabilityReport { core, data_hash, chunks } = v {
                            assert(((core, data_hash), chunks).encoding() == v.payload_encoding());
                            assert(((core, data_hash), chunks).encodable());
                        }
                    }
                }
                Err(e)
            },
        }
    }

    /// Decodes the fields of the variant with type identifier 10, whose tag
    /// byte is at `pos`.
    #[verifier::rlimit(50)]
    fn decode_dispute_initiate(bytes: &[u8], pos: usize) -> (out: Result<(TransactionKind, usize), DecodeError>)
        requires
            pos < bytes@.len(),
            bytes@[pos as int] == 10,
        ensures
            decoded(bytes@, pos as int, out),
            match out {
                Ok(_) => true,
                Err(e) => causes(e) == TransactionKind::decode_error(bytes@, pos as int),
            },
    {
        assert(pos < bytes.len());
        let ghost r0 = field_step::<u16>(bytes@, pos as int + 1, "Could not decode `TransactionKind::DisputeInitiate::core`"@);
        let r = decode_field::<u16>(bytes, pos + 1, "Could not decode `TransactionKind::DisputeInitiate::core`");
        let ghost r1 = extend_step::<u32>(bytes@, r0, "Could not decode `TransactionKind::DisputeInitiate::block_number`"@);
        let r = decode_extend::<u16, u32>(bytes, pos + 1, r, Ghost(r0), "Could not decode `TransactionKind::DisputeInitiate::block_number`");
        let ghost r2 = extend_step::<Vec<u8>>(bytes@, r1, "Could not decode `TransactionKind::DisputeInitiate::evidence`"@);
        let r = decode_extend::<(u16, u32), Vec<u8>>(bytes, pos + 1, r, Ghost(r1), "Could not decode `TransactionKind::DisputeInitiate::evidence`");
        match r {
            Ok((t, end)) => {
                let ((core, block_number), evidence) = t;
                let v = TransactionKind::DisputeInitiate { core, block_number, evidence };
                assert(v.payload_encoding() == t.encoding());
                assert(bytes@.subrange(pos as int, end as int) =~= seq![10u8]
                    + bytes@.subrange(pos + 1, end as int));
                Ok((v, end))
            },
            Err(e) => {
                assert forall|v: TransactionKind| v.encodable() implies !starts_with(
                    bytes@.skip(pos as int),
                    #[trigger] v.encoding(),
                ) by {
                    if starts_with(bytes@.skip(pos as int), v.encoding()) {
                        lemma_starts_with_tag(bytes@.skip(pos as int), v.spec_transaction_type(), v.payload_encoding());
                        assert(bytes@.skip(pos as int).skip(1) =~= bytes@.skip(pos + 1));
                        if let TransactionKind::DisputeInitiate { core, block_number, evidence } = v {
                            assert(((core, block_number), evidence).encoding() == v.payload_encoding());
                            assert(((core, block_number), evidence).encodable());
                        }
                    }
                }
                Err(e)
            },
        }
    }

    /// Decodes the fields of the variant with type identifier 11, whose tag
    /// byte is at `pos`.
    #[verifier::rlimit(50)]
    fn decode_dispute_vote(bytes: &[u8], pos: usize) -> (out: Result<(TransactionKind, usize), DecodeError>)
        requires
            pos < bytes@.len(),
            bytes@[pos as int] == 11,
        ensures
            decoded(bytes@, pos as int, out),
            match out {
                Ok(_) => true,
                Err(e) => causes(e) == TransactionKind::decode_error(bytes@, pos as int),
            },
    {
        assert(pos < bytes.len());
        let ghost r0 = field_step::<crate::types::Hash>(bytes@, pos as int + 1, "Could not decode `TransactionKind::DisputeVote::dispute_id`"@);
        let r = decode_field::<crate::types::Hash>(bytes, pos + 1, "Could not decode `TransactionKind::DisputeVote::dispute_id`");
        let ghost r1 = extend_step::<bool>(bytes@, r0, "Could not decode `TransactionKind::DisputeVote::vote`"@);
        let r = decode_extend::<crate::types::Hash, bool>(bytes, pos + 1, r, Ghost(r0), "Could not decode `TransactionKind::DisputeVote::vote`");
        let ghost r2 = extend_step::<Vec<u8>>(bytes@, r1, "Could not decode `TransactionKind::DisputeVote::justification`"@);
        let r = decode_extend::<(crate::types::Hash, bool), Vec<u8>>(bytes, pos + 1, r, Ghost(r1), "Could not decode `TransactionKind::DisputeVote::justification`");
        match r {
            Ok((t, end)) => {
                let ((dispute_id, vote), justification) = t;
                let v = TransactionKind::DisputeVote { dispute_id, vote, justification };
                assert(v.payload_encoding() == t.encoding());
                assert(bytes@.subrange(pos as int, end as int) =~= seq![11u8]
                    + bytes@.subrange(pos + 1, end as int));
                Ok((v, end))
            },
            Err(e) => {
                assert forall|v: TransactionKind| v.encodable() implies !starts_with(
                    bytes@.skip(pos as int),
                    #[trigger] v.encoding(),
                ) by {
                    if starts_with(bytes@.skip(pos as int), v.encoding()) {
                        lemma_starts_with_tag(bytes@.skip(pos as int), v.spec_transaction_type(), v.payload_encoding());
                        assert(bytes@.skip(pos as int).skip(1) =~= bytes@.skip(pos + 1));
                        if let TransactionKind::DisputeVote { dispute_id, vote, justification } = v {
                            assert(((dispute_id, vote), justification).encoding() == v.payload_encoding());
                            assert(((dispute_id, vote), justification).encodable());
                        }
                    }
                }
                Err(e)
            },
        }
    }
}

impl Decode for TransactionKind {
    proof fn lemma_prefix_unique(a: Self, b: Self, s: Seq<u8>) {
        lemma_starts_with_tag(s, a.spec_transaction_type(), a.payload_encoding());
        lemma_starts_with_tag(s, b.spec_transaction_type(), b.payload_encoding());
        match (a, b) {
            (TransactionKind::Transfer { to: to1, amount: amount1 }, TransactionKind::Transfer { to: to2, amount: amount2 }) => {
                <(AccountId, Balance) as Decode>::lemma_prefix_unique((to1, amount1), (to2, amount2), s.skip(1));
            },
            (TransactionKind::ServiceCall { service: service1, method: method1, data: data1 }, TransactionKind::ServiceCall { service: service2, method: method2, data: data2 }) => {
                <((ServiceId, u32), Vec<u8>) as Decode>::lemma_prefix_unique(((service1, method1), data1), ((service2, method2), data2), s.skip(1));
            },
            (TransactionKind::ServiceDeploy { code: code1, initial_state: initial_state1 }, TransactionKind::ServiceDeploy { code: code2, initial_state: initial_state2 }) => {
                <(Vec<u8>, Vec<u8>) as Decode>::lemma_prefix_unique((code1, initial_state1), (code2, initial_state2), s.skip(1));
            },
            (TransactionKind::ServiceUpdate { service: service1, code: code1 }, TransactionKind::ServiceUpdate { service: service2, code: code2 }) => {
                <(ServiceId, Vec<u8>) as Decode>::lemma_prefix_unique((service1, code1), (service2, code2), s.skip(1));
            },
            (TransactionKind::ValidatorRegister { keys: keys1, stake: stake1 }, TransactionKind::ValidatorRegister { keys: keys2, stake: stake2 }) => {
                <(ValidatorKeys, Balance) as Decode>::lemma_prefix_unique((keys1, stake1), (keys2, stake2), s.skip(1));
            },
            (TransactionKind::Delegate { validator: validator1, amount: amount1 }, TransactionKind::Delegate { validator: validator2, amount: amount2 }) => {
                <(AccountId, Balance) as Decode>::lemma_prefix_unique((validator1, amount1), (validator2, amount2), s.skip(1));
            },
            (TransactionKind::Undelegate { validator: validator1, amount: amount1 }, TransactionKind::Undelegate { validator: validator2, amount: amount2 }) => {
                <(AccountId, Balance) as Decode>::lemma_prefix_unique((validator1, amount1), (validator2, amount2), s.skip(1));
            },
            (TransactionKind::CoreAssign { core: core1, service: service1, duration: duration1 }, TransactionKind::CoreAssign { core: core2, service: service2, duration: duration2 }) => {
                <((u16, ServiceId), u64) as Decode>::lemma_prefix_unique(((core1, service1), duration1), ((core2, service2), duration2), s.skip(1));
            },
            (TransactionKind::AvailabilityReport { core: core1, data_hash: data_hash1, chunks: chunks1 }, TransactionKind::AvailabilityReport { core: core2, data_hash: data_hash2, chunks: chunks2 }) => {
                <((u16, crate::types::Hash), Vec<Vec<u8>>) as Decode>::lemma_prefix_unique(((core1, data_hash1), chunks1), ((core2, data_hash2), chunks2), s.skip(1));
            },
            (TransactionKind::DisputeInitiate { core: core1, block_number: block_number1, evidence: evidence1 }, TransactionKind::DisputeInitiate { core: core2, block_number: block_number2, evidence: evidence2 }) => {
                <((u16, u32), Vec<u8>) as Decode>::lemma_prefix_unique(((core1, block_number1), evidence1), ((core2, block_number2), evidence2), s.skip(1));
            },
            (TransactionKind::DisputeVote { dispute_id: dispute_id1, vote: vote1, justification: justification1 }, TransactionKind::DisputeVote { dispute_id: dispute_id2, vote: vote2, justification: justification2 }) => {
                <((crate::types::Hash, bool), Vec<u8>) as Decode>::lemma_prefix_unique(((dispute_id1, vote1), justification1), ((dispute_id2, vote2), justification2), s.skip(1));
            },
            _ => {},
        }
    }

    open spec fn decode_error(bytes: Seq<u8>, pos: int) -> Seq<Seq<char>> {
        if pos >= bytes.len() {
            seq!["Not enough data to fill buffer"@, "Could not decode `TransactionKind`, failed to read variant byte"@]
        } else if bytes[pos] == 0 {
            step_error(extend_step::<Balance>(bytes, field_step::<AccountId>(bytes, pos + 1, "Could not decode `TransactionKind::Transfer::to`"@), "Could not decode `TransactionKind::Transfer::amount`"@))
        } else if bytes[pos] == 1 {
            step_error(extend_step::<Vec<u8>>(bytes, extend_step::<u32>(bytes, field_step::<ServiceId>(bytes, pos + 1, "Could not decode `TransactionKind::ServiceCall::service`"@), "Could not decode `TransactionKind::ServiceCall::method`"@), "Could not decode `TransactionKind::ServiceCall::data`"@))
        } else if bytes[pos] == 2 {
            step_error(extend_step::<Vec<u8>>(bytes, field_step::<Vec<u8>>(bytes, pos + 1, "Could not decode `TransactionKind::ServiceDeploy::code`"@), "Could not decode `TransactionKind::ServiceDeploy::initial_state`"@))
        } else if bytes[pos] == 3 {
            step_error(extend_step::<Vec<u8>>(bytes, field_step::<ServiceId>(bytes, pos + 1, "Could not decode `TransactionKind::ServiceUpdate::service`"@), "Could not decode `TransactionKind::ServiceUpdate::code`"@))
        } else if bytes[pos] == 4 {
            step_error(extend_step::<Balance>(bytes, field_step::<ValidatorKeys>(bytes, pos + 1, "Could not decode `TransactionKind::ValidatorRegister::keys`"@), "Could not decode `TransactionKind::ValidatorRegister::stake`"@))
        } else if bytes[pos] == 5 {
            Seq::empty()
        } else if bytes[pos] == 6 {
            step_error(extend_step::<Balance>(bytes, field_step::<AccountId>(bytes, pos + 1, "Could not decode `TransactionKind::Delegate::validator`"@), "Could not decode `TransactionKind::Delegate::amount`"@))
        } else if bytes[pos] == 7 {
            step_error(extend_step::<Balance>(bytes, field_step::<AccountId>(bytes, pos + 1, "Could not decode `TransactionKind::Undelegate::validator`"@), "Could not decode `TransactionKind::Undelegate::amount`"@))
        } else if bytes[pos] == 8 {
            step_error(extend_step::<u64>(bytes, extend_step::<ServiceId>(bytes, field_step::<u16>(bytes, pos + 1, "Could not decode `TransactionKind::CoreAssign::core`"@), "Could not decode `TransactionKind::CoreAssign::service`"@), "Could not decode `TransactionKind::CoreAssign::duration`"@))
        } else if bytes[pos] == 9 {
            step_error(extend_step::<Vec<Vec<u8>>>(bytes, extend_step::<crate::types::Hash>(bytes, field_step::<u16>(bytes, pos + 1, "Could not decode `TransactionKind::AvailabilityReport::core`"@), "Could not decode `TransactionKind::AvailabilityReport::data_hash`"@), "Could not decode `TransactionKind::AvailabilityReport::chunks`"@))
        } else if bytes[pos] == 10 {
            step_error(extend_step::<Vec<u8>>(bytes, extend_step::<u32>(bytes, field_step::<u16>(bytes, pos + 1, "Could not decode `TransactionKind::DisputeInitiate::core`"@), "Could not decode `TransactionKind::DisputeInitiate::block_number`"@), "Could not decode `TransactionKind::DisputeInitiate::evidence`"@))
        } else if bytes[pos] == 11 {
            step_error(extend_step::<Vec<u8>>(bytes, extend_step::<bool>(bytes, field_step::<crate::types::Hash>(bytes, pos + 1, "Could not decode `TransactionKind::DisputeVote::dispute_id`"@), "Could not decode `TransactionKind::DisputeVote::vote`"@), "Could not decode `TransactionKind::DisputeVote::justification`"@))
        } else {
            seq!["Could not decode `TransactionKind`, variant doesn't exist"@]
        }
    }

    fn decode_at(bytes: &[u8], pos: usize) -> (out: Result<(Self, usize), DecodeError>) {
        let mut input: &[u8] = &bytes[pos..bytes.len()];
        assert(input@ =~= bytes@.skip(pos as int));
        let tag = match scale_u8(&mut input) {
            Ok(t) => t,
            Err(t) => {
                assert forall|v: TransactionKind| v.encodable() implies !starts_with(
                    bytes@.skip(pos as int),
                    #[trigger] v.encoding(),
                ) by {
                    assert(v.encoding().len() > 0);
                }
                return Err(chained(error_from(t), "Could not decode `TransactionKind`, failed to read variant byte"));
            },
        };
        assert(tag == bytes@[pos as int]);
        if tag == 0 {
            return Self::decode_transfer(bytes, pos);
        }
        if tag == 1 {
            return Self::decode_service_call(bytes, pos);
        }
        if tag == 2 {
            return Self::decode_service_deploy(bytes, pos);
        }
        if tag == 3 {
            return Self::decode_service_update(bytes, pos);
        }
        if tag == 4 {
            return Self::decode_validator_register(bytes, pos);
        }
        if tag == 5 {
            let v = TransactionKind::ValidatorUnregister;
            assert(bytes@.subrange(pos as int, pos + 1) =~= v.encoding());
            return Ok((v, pos + 1));
        }
        if tag == 6 {
            return Self::decode_delegate(bytes, pos);
        }
        if tag == 7 {
            return Self::decode_undelegate(bytes, pos);
        }
        if tag == 8 {
            return Self::decode_core_assign(bytes, pos);
        }
        if tag == 9 {
            return Self::decode_availability_report(bytes, pos);
        }
        if tag == 10 {
            return Self::decode_dispute_initiate(bytes, pos);
        }
        if tag == 11 {
            return Self::decode_dispute_vote(bytes, pos);
        }
        assert forall|v: TransactionKind| v.encodable() implies !starts_with(
            bytes@.skip(pos as int),
            #[trigger] v.encoding(),
        ) by {
            if starts_with(bytes@.skip(pos as int), v.encoding()) {
                lemma_starts_with_tag(bytes@.skip(pos as int), v.spec_transaction_type(), v.payload_encoding());
            }
        }
        Err(error_desc("Could not decode `TransactionKind`, variant doesn't exist"))
    }

    open spec fn width() -> Option<nat> {
        None
    }

    fn fixed_width() -> (out: Option<usize>) {
        None
    }
}

/// Validator keys for registration
#[derive(Debug, Clone, PartialEq, Eq)]
pub struct ValidatorKeys {
    /// GRANDPA key for finality voting
    pub grandpa: Ed25519PublicKey,
    /// BABE key for block production
    pub babe: bandersnatch::PublicKey,
    /// Session key for networking
    pub session: Ed25519PublicKey,
    /// Authority discovery key
    pub authority_discovery: Ed25519PublicKey,
}

impl ValidatorKeys {
    /// Create new validator keys
    pub fn new(
        grandpa: Ed25519PublicKey,
        babe: bandersnatch::PublicKey,
        session: Ed25519PublicKey,
        authority_discovery: Ed25519PublicKey,
    ) -> (out: Self)
        ensures
            out == (ValidatorKeys { grandpa, babe, session, authority_discovery }),
    {
        Self { grandpa, babe, session, authority_discovery }
    }
}

impl Encode for ValidatorKeys {
    open spec fn encodable(&self) -> bool {
        true
    }

    open spec fn encoding(&self) -> Seq<u8> {
        self.grandpa.encoding() + self.babe.encoding() + self.session.encoding()
            + self.authority_discovery.encoding()
    }

    fn encode_to(&self, dest: &mut Vec<u8>) {
        self.grandpa.encode_to(dest);
        self.babe.encode_to(dest);
        self.session.encode_to(dest);
        self.authority_discovery.encode_to(dest);
        assert(dest@ =~= old(dest)@ + self.encoding());
    }
}

/// The fields of a [`ValidatorKeys`] in the order of its encoding, nested in pairs.
pub type ValidatorKeysFields = (((Ed25519PublicKey, bandersnatch::PublicKey), Ed25519PublicKey), Ed25519PublicKey);

impl ValidatorKeys {
    /// The fields as a [`ValidatorKeysFields`].
    pub closed spec fn field_tuple(&self) -> ValidatorKeysFields {
        (((self.grandpa, self.babe), self.session), self.authority_discovery)
    }
}

impl Decode for ValidatorKeys {
    proof fn lemma_prefix_unique(a: Self, b: Self, s: Seq<u8>) {
        <ValidatorKeysFields as Decode>::lemma_prefix_unique(a.field_tuple(), b.field_tuple(), s);
    }

    open spec fn decode_error(bytes: Seq<u8>, pos: int) -> Seq<Seq<char>> {
        step_error(extend_step::<Ed25519PublicKey>(bytes, extend_step::<Ed25519PublicKey>(bytes, extend_step::<bandersnatch::PublicKey>(bytes, field_step::<Ed25519PublicKey>(bytes, pos, "Could not decode `ValidatorKeys::grandpa`"@), "Could not decode `ValidatorKeys::babe`"@), "Could not decode `ValidatorKeys::session`"@), "Could not decode `ValidatorKeys::authority_discovery`"@))
    }

    fn decode_at(bytes: &[u8], pos: usize) -> (out: Result<(Self, usize), DecodeError>) {
        let ghost r0 = field_step::<Ed25519PublicKey>(bytes@, pos as int, "Could not decode `ValidatorKeys::grandpa`"@);
        let r = decode_field::<Ed25519PublicKey>(bytes, pos, "Could not decode `ValidatorKeys::grandpa`");
        let ghost r1 = extend_step::<bandersnatch::PublicKey>(bytes@, r0, "Could not decode `ValidatorKeys::babe`"@);
        let r = decode_extend::<Ed25519PublicKey, bandersnatch::PublicKey>(bytes, pos, r, Ghost(r0), "Could not decode `ValidatorKeys::babe`");
        let ghost r2 = extend_step::<Ed25519PublicKey>(bytes@, r1, "Could not decode `ValidatorKeys::session`"@);
        let r = decode_extend::<(Ed25519PublicKey, bandersnatch::PublicKey), Ed25519PublicKey>(bytes, pos, r, Ghost(r1), "Could not decode `ValidatorKeys::session`");
        let ghost r3 = extend_step::<Ed25519PublicKey>(bytes@, r2, "Could not decode `ValidatorKeys::authority_discovery`"@);
        let r = decode_extend::<((Ed25519PublicKey, bandersnatch::PublicKey), Ed25519PublicKey), Ed25519PublicKey>(bytes, pos, r, Ghost(r2), "Could not decode `ValidatorKeys::authority_discovery`");
        match r {
            Ok((t, end)) => {
                let (((grandpa, babe), session), authority_discovery) = t;
                let v = ValidatorKeys { grandpa, babe, session, authority_discovery };
                assert(v.field_tuple() == t);
                Ok((v, end))
            },
            Err(e) => {
                assert forall|v: ValidatorKeys| v.encodable() implies !starts_with(
                    bytes@.skip(pos as int),
                    #[trigger] v.encoding(),
                ) by {
                    assert(v.field_tuple().encoding() == v.encoding());
                    assert(v.field_tuple().encodable());
                }
                Err(e)
            },
        }
    }

    open spec fn width() -> Option<nat> {
        None
    }

    fn fixed_width() -> (out: Option<usize>) {
        None
    }
}

impl Canonical for ValidatorKeys {
    proof fn lemma_encoding_injective(a: Self, b: Self) {
        <ValidatorKeysFields as Canonical>::lemma_encoding_injective(a.field_tuple(), b.field_tuple());
    }
}


/// Complete JAM transaction
#[derive(Debug, Clone, PartialEq, Eq)]
pub struct Transaction {
    /// Transaction sender
    pub sender: AccountId,
    /// Transaction nonce (prevents replay attacks)
    pub nonce: Nonce,
    /// Maximum gas to spend
    pub gas_limit: Gas,
    /// Gas price per unit
    pub gas_price: GasPrice,
    /// Transaction kind and parameters
    pub kind: TransactionKind,
    /// Digital signature
    pub signature: Signature,
}

/// The base weight of every transaction.
pub open spec fn base_weight() -> nat {
    10_000
}

impl Transaction {
    /// The weight of the transaction: the base weight plus that of its kind.
    pub open spec fn spec_weight(&self) -> nat {
        base_weight() + self.kind.kind_weight()
    }

    /// Whether computing the weight stays within the integer widths: the
    /// weight fits a `u64`, and for an availability report the total chunk
    /// length, which is summed as a `usize`, fits a `usize`.
    pub open spec fn weight_fits(&self) -> bool {
        &&& self.spec_weight() <= u64::MAX
        &&& match &self.kind {
            TransactionKind::AvailabilityReport { chunks, .. } => total_len(chunks@) <= usize::MAX,
            _ => true,
        }
    }

    /// Whether the kind needs no fee.
    pub open spec fn spec_is_system(&self) -> bool {
        ||| self.kind is ValidatorUnregister
        ||| self.kind is AvailabilityReport
        ||| self.kind is DisputeVote
    }

    /// The bytes the sender signs: the sender, then the nonce, gas limit and
    /// gas price as 8 little-endian bytes each, then the encoded kind.
    pub open spec fn spec_signature_message(&self) -> Seq<u8> {
        self.sender.0@ + le_bytes(self.nonce as nat, 8) + le_bytes(self.gas_limit.0 as nat, 8)
            + le_bytes(self.gas_price as nat, 8) + self.kind.encoding()
    }

    /// The first validation rule that the transaction breaks, if any.
    pub open spec fn spec_failure(&self) -> Option<Failure> {
        if self.gas_limit.0 == 0 {
            tx_fail("Gas limit cannot be zero"@)
        } else if self.gas_limit.0 > 10_000_000 {
            tx_fail("Gas limit too high"@)
        } else if self.gas_price == 0 && !self.spec_is_system() {
            tx_fail("Gas price cannot be zero for non-system transactions"@)
        } else {
            self.kind.kind_failure()
        }
    }

    /// Create a new transaction
    pub fn new(
        sender: AccountId,
        nonce: Nonce,
        gas_limit: Gas,
        gas_price: GasPrice,
        kind: TransactionKind,
        signature: Signature,
    ) -> (out: Self)
        ensures
            out == (Transaction { sender, nonce, gas_limit, gas_price, kind, signature }),
    {
        Self { sender, nonce, gas_limit, gas_price, kind, signature }
    }

    /// Get transaction hash
    pub fn hash(&self) -> (out: crate::types::Hash)
        requires
            self.encodable(),
        ensures
            out.0@ == blake3_digest(self.encoding()),
    {
        let bytes = self.encode();
        blake3_of(bytes.as_slice())
    }

    /// Get transaction fee (gas_limit * gas_price)
    pub fn fee(&self) -> (out: Balance)
        ensures
            out.0 == self.gas_limit.0 * self.gas_price,
    {
        self.gas_limit.saturating_mul(self.gas_price)
    }

    /// Check if transaction is signed by the claimed sender. Signature checks
    /// are not implemented yet: every transaction passes.
    pub fn verify_signature(&self) -> (out: PrimitiveResult<bool>)
        requires
            self.kind.encodable(),
        ensures
            out == Ok::<bool, PrimitiveError>(true),
    {
        let _message = self.signature_message();
        Ok(true)
    }

    /// Get the message that should be signed
    pub fn signature_message(&self) -> (out: Vec<u8>)
        requires
            self.kind.encodable(),
        ensures
            out@ == self.spec_signature_message(),
    {
        let mut message: Vec<u8> = Vec::new();
        push_bytes(&mut message, self.sender.as_bytes());
        push_le_bytes(&mut message, self.nonce as u128, 8);
        push_le_bytes(&mut message, self.gas_limit.0 as u128, 8);
        push_le_bytes(&mut message, self.gas_price as u128, 8);
        self.kind.encode_to(&mut message);
        assert(message@ =~= self.spec_signature_message());
        message
    }

    /// Check if transaction is a system transaction (no fee required)
    pub fn is_system_transaction(&self) -> (out: bool)
        ensures
            out == self.spec_is_system(),
    {
        match self.kind {
            TransactionKind::ValidatorUnregister
            | TransactionKind::AvailabilityReport { .. }
            | TransactionKind::DisputeVote { .. } => true,
            _ => false,
        }
    }

    /// Get the transaction weight (for block weight calculations)
    pub fn weight(&self) -> (out: Weight)
        requires
            self.weight_fits(),
        ensures
            out.0 == self.spec_weight(),
    {
        let base_weight: u64 = 10_000;
        let kind_weight: u64 = match &self.kind {
            TransactionKind::Transfer { .. } => 25_000,
            TransactionKind::ServiceCall { data, .. } => 50_000 + (data.len() as u64 * 10),
            TransactionKind::ServiceDeploy { code, initial_state } => 100_000 + (code.len() as u64
                * 50) + (initial_state.len() as u64 * 10),
            TransactionKind::ServiceUpdate { code, .. } => 80_000 + (code.len() as u64 * 50),
            TransactionKind::ValidatorRegister { .. } => 200_000,
            TransactionKind::ValidatorUnregister => 50_000,
            TransactionKind::Delegate { .. } => 30_000,
            TransactionKind::Undelegate { .. } => 30_000,
            TransactionKind::CoreAssign { .. } => 40_000,
            TransactionKind::AvailabilityReport { chunks, .. } => {
                let mut total: usize = 0;
                let mut i: usize = 0;
                while i < chunks.len()
                    invariant
                        i <= chunks@.len(),
                        total == total_len(chunks@.take(i as int)),
                        total_len(chunks@) <= usize::MAX,
                    decreases chunks@.len() - i,
                {
                    proof {
                        assert(chunks@.take(i + 1).drop_last() =~= chunks@.take(i as int));
                        lemma_total_len_prefix(chunks@, i + 1);
                    }
                    total = total + chunks[i].len();
                    i = i + 1;
                }
                assert(chunks@.take(chunks@.len() as int) =~= chunks@);
                60_000 + (total as u64 * 5)
            },
            TransactionKind::DisputeInitiate { evidence, .. } => {
                150_000 + (evidence.len() as u64 * 20)
            },
            TransactionKind::DisputeVote { justification, .. } => {
                30_000 + (justification.len() as u64 * 10)
            },
        };
        Weight(base_weight + kind_weight)
    }

    /// Validate transaction kind-specific rules
    pub fn validate_kind(&self) -> (out: PrimitiveResult<()>)
        ensures
            crate::outcome_is(out, self.kind.kind_failure()),
    {
        match &self.kind {
            TransactionKind::Transfer { amount, .. } => {
                if amount.0 == 0 {
                    return Err(invalid_transaction("Transfer amount cannot be zero"));
                }
            },
            TransactionKind::ServiceCall { data, .. } => {
                if data.len() > 1024 * 1024 {
                    return Err(invalid_transaction("Service call data too large"));
                }
            },
            TransactionKind::ServiceDeploy { code, initial_state } => {
                if code.len() == 0 {
                    return Err(invalid_transaction("Service code cannot be empty"));
                }
                if code.len() > 5 * 1024 * 1024 {
                    return Err(invalid_transaction("Service code too large"));
                }
                if initial_state.len() > 1024 * 1024 {
                    return Err(invalid_transaction("Initial state too large"));
                }
            },
            TransactionKind::ServiceUpdate { code, .. } => {
                if code.len() == 0 {
                    return Err(invalid_transaction("Service code cannot be empty"));
                }
                if code.len() > 5 * 1024 * 1024 {
                    return Err(invalid_transaction("Service code too large"));
                }
            },
            TransactionKind::ValidatorRegister { stake, .. } => {
                if stake.0 == 0 {
                    return Err(invalid_transaction("Validator stake cannot be zero"));
                }
            },
            TransactionKind::Delegate { amount, .. } | TransactionKind::Undelegate { amount, .. } => {
                if amount.0 == 0 {
                    return Err(invalid_transaction("Delegation amount cannot be zero"));
                }
            },
            TransactionKind::CoreAssign { duration, .. } => {
                if *duration == 0 {
                    return Err(invalid_transaction("Core assignment duration cannot be zero"));
                }
            },
            TransactionKind::AvailabilityReport { chunks, .. } => {
                if chunks.len() == 0 {
                    return Err(invalid_transaction("Availability report must include chunks"));
                }
            },
            TransactionKind::DisputeInitiate { evidence, .. } => {
                if evidence.len() == 0 {
                    return Err(invalid_transaction("Dispute must include evidence"));
                }
            },
            _ => {},
        }
        Ok(())
    }
}

impl Encode for Transaction {
    open spec fn encodable(&self) -> bool {
        self.kind.encodable()
    }

    open spec fn encoding(&self) -> Seq<u8> {
        self.sender.encoding() + self.nonce.encoding() + self.gas_limit.encoding()
            + self.gas_price.encoding() + self.kind.encoding() + self.signature.encoding()
    }

    fn encode_to(&self, dest: &mut Vec<u8>) {
        self.sender.encode_to(dest);
        self.nonce.encode_to(dest);
        self.gas_limit.encode_to(dest);
        self.gas_price.encode_to(dest);
        self.kind.encode_to(dest);
        self.signature.encode_to(dest);
        assert(dest@ =~= old(dest)@ + self.encoding());
    }
}

/// The fields of a [`Transaction`] in the order of its encoding, nested in pairs.
pub type TransactionFields = (((((AccountId, Nonce), Gas), GasPrice), TransactionKind), Signature);

impl Transaction {
    /// The fields as a [`TransactionFields`].
    pub closed spec fn field_tuple(&self) -> TransactionFields {
        (((((self.sender, self.nonce), self.gas_limit), self.gas_price), self.kind), self.signature)
    }
}

impl Decode for Transaction {
    proof fn lemma_prefix_unique(a: Self, b: Self, s: Seq<u8>) {
        <TransactionFields as Decode>::lemma_prefix_unique(a.field_tuple(), b.field_tuple(), s);
    }

    open spec fn decode_error(bytes: Seq<u8>, pos: int) -> Seq<Seq<char>> {
        step_error(extend_step::<Signature>(bytes, extend_step::<TransactionKind>(bytes, extend_step::<GasPrice>(bytes, extend_step::<Gas>(bytes, extend_step::<Nonce>(bytes, field_step::<AccountId>(bytes, pos, "Could not decode `Transaction::sender`"@), "Could not decode `Transaction::nonce`"@), "Could not decode `Transaction::gas_limit`"@), "Could not decode `Transaction::gas_price`"@), "Could not decode `Transaction::kind`"@), "Could not decode `Transaction::signature`"@))
    }

    fn decode_at(bytes: &[u8], pos: usize) -> (out: Result<(Self, usize), DecodeError>) {
        let ghost r0 = field_step::<AccountId>(bytes@, pos as int, "Could not decode `Transaction::sender`"@);
        let r = decode_field::<AccountId>(bytes, pos, "Could not decode `Transaction::sender`");
        let ghost r1 = extend_step::<Nonce>(bytes@, r0, "Could not decode `Transaction::nonce`"@);
        let r = decode_extend::<AccountId, Nonce>(bytes, pos, r, Ghost(r0), "Could not decode `Transaction::nonce`");
        let ghost r2 = extend_step::<Gas>(bytes@, r1, "Could not decode `Transaction::gas_limit`"@);
        let r = decode_extend::<(AccountId, Nonce), Gas>(bytes, pos, r, Ghost(r1), "Could not decode `Transaction::gas_limit`");
        let ghost r3 = extend_step::<GasPrice>(bytes@, r2, "Could not decode `Transaction::gas_price`"@);
        let r = decode_extend::<((AccountId, Nonce), Gas), GasPrice>(bytes, pos, r, Ghost(r2), "Could not decode `Transaction::gas_price`");
        let ghost r4 = extend_step::<TransactionKind>(bytes@, r3, "Could not decode `Transaction::kind`"@);
        let r = decode_extend::<(((AccountId, Nonce), Gas), GasPrice), TransactionKind>(bytes, pos, r, Ghost(r3), "Could not decode `Transaction::kind`");
        let ghost r5 = extend_step::<Signature>(bytes@, r4, "Could not decode `Transaction::signature`"@);
        let r = decode_extend::<((((AccountId, Nonce), Gas), GasPrice), TransactionKind), Signature>(bytes, pos, r, Ghost(r4), "Could not decode `Transaction::signature`");
        match r {
            Ok((t, end)) => {
                let (((((sender, nonce), gas_limit), gas_price), kind), signature) = t;
                let v = Transaction { sender, nonce, gas_limit, gas_price, kind, signature };
                assert(v.field_tuple() == t);
                Ok((v, end))
            },
            Err(e) => {
                assert forall|v: Transaction| v.encodable() implies !starts_with(
                    bytes@.skip(pos as int),
                    #[trigger] v.encoding(),
                ) by {
                    assert(v.field_tuple().encoding() == v.encoding());
                    assert(v.field_tuple().encodable());
                }
                Err(e)
            },
        }
    }

    open spec fn width() -> Option<nat> {
        None
    }

    fn fixed_width() -> (out: Option<usize>) {
        None
    }
}

impl Validate for Transaction {
    /// The signature check encodes the kind, and runs only once every other
    /// rule has passed.
    open spec fn validation_ready(&self) -> bool {
        self.spec_failure() is None ==> self.kind.encodable()
    }

    open spec fn validation_failure(&self) -> Option<Failure> {
        self.spec_failure()
    }

    fn validate(&self) -> (out: PrimitiveResult<()>) {
        assert(self.validation_ready() == (self.spec_failure() is None ==> self.kind.encodable()));
        assert(self.validation_failure() == self.spec_failure());
        // Check gas limit is reasonable
        if self.gas_limit.0 == 0 {
            return Err(invalid_transaction("Gas limit cannot be zero"));
        }
        if self.gas_limit.0 > 10_000_000 {
            return Err(invalid_transaction("Gas limit too high"));
        }
        // Check gas price is reasonable
        if self.gas_price == 0 && !self.is_system_transaction() {
            return Err(invalid_transaction("Gas price cannot be zero for non-system transactions"));
        }
        // Validate transaction kind
        match self.validate_kind() {
            Ok(()) => {},
            Err(e) => {
                return Err(e);
            },
        }
        // Verify signature
        match self.verify_signature() {
            Ok(valid) => {
                if !valid {
                    return Err(invalid_transaction("Invalid signature"));
                }
            },
            Err(e) => {
                return Err(e);
            },
        }
        Ok(())
    }
}

/// Transaction pool entry with additional metadata
#[derive(Debug, Clone, PartialEq, Eq)]
pub struct TransactionPoolEntry {
    /// The transaction
    pub transaction: Transaction,
    /// When it was received
    pub received_at: Timestamp,
    /// Priority score for ordering
    pub priority: u64,
    /// Number of times it was propagated
    pub propagation_count: u32,
}

/// The priority of a transaction with the given gas price, received at
/// `received_at`, as of `now`: the gas price plus one per whole second of
/// age (no age when `now` precedes the arrival).
pub open spec fn aged_priority(gas_price: u64, received_at: u64, now: u64) -> int {
    gas_price + saturating_diff(now as int, received_at as int) / 1000
}

impl TransactionPoolEntry {
    /// Create a new pool entry
    pub fn new(transaction: Transaction, received_at: Timestamp) -> (out: Self)
        ensures
            out.priority == transaction.gas_price,
            out.transaction == transaction,
            out.received_at == received_at,
            out.propagation_count == 0,
    {
        let priority = transaction.gas_price;  // Simple priority based on gas price
        Self { transaction, received_at, priority, propagation_count: 0 }
    }

    /// Update priority based on current conditions
    pub fn update_priority(&mut self, current_time: Timestamp)
        requires
            aged_priority(old(self).transaction.gas_price, old(self).received_at.0, current_time.0)
                <= u64::MAX,
        ensures
            final(self).priority == aged_priority(
                old(self).transaction.gas_price,
                old(self).received_at.0,
                current_time.0,
            ),
            final(self).transaction == old(self).transaction,
            final(self).received_at == old(self).received_at,
            final(self).propagation_count == old(self).propagation_count,
    {
        // Increase priority for older transactions
        let age_bonus = current_time.saturating_sub(self.received_at) / 1000;  // Age in seconds
        self.priority = self.transaction.gas_price + age_bonus;
    }

    /// Check if transaction has expired
    pub fn is_expired(&self, current_time: Timestamp, max_lifetime: u64) -> (out: bool)
        ensures
            out == (saturating_diff(current_time.0 as int, self.received_at.0 as int)
                > max_lifetime),
    {
        current_time.saturating_sub(self.received_at) > max_lifetime
    }
}

/// An older transaction never ranks lower: the priority that
/// `update_priority` sets does not decrease as the current time advances.
pub proof fn priority_grows_with_age(gas_price: u64, received_at: u64, t1: u64, t2: u64)
    requires
        t1 <= t2,
    ensures
        aged_priority(gas_price, received_at, t1) <= aged_priority(gas_price, received_at, t2),
{
    let a = saturating_diff(t1 as int, received_at as int);
    let b = saturating_diff(t2 as int, received_at as int);
    assert(a <= b);
    assert(a / 1000 <= b / 1000) by (nonlinear_arith)
        requires a <= b, 0 <= a;
}

/// Once a pool entry has expired it stays expired: if it is expired at `t1`
/// it is expired at every later `t2`.
pub proof fn expiry_is_permanent(received_at: u64, max_lifetime: u64, t1: u64, t2: u64)
    requires
        t1 <= t2,
        saturating_diff(t1 as int, received_at as int) > max_lifetime,
    ensures
        saturating_diff(t2 as int, received_at as int) > max_lifetime,
{
}

/// A transaction's fee is exactly its gas limit times its gas price: the
/// product of two `u64` values never reaches the saturation bound of a
/// `Balance`.
pub proof fn fee_never_saturates(gas_limit: u64, gas_price: u64)
    ensures
        gas_limit * gas_price <= u128::MAX,
{
    assert(gas_limit * gas_price <= 0xffff_ffff_ffff_ffff * 0xffff_ffff_ffff_ffff) by (nonlinear_arith)
        requires gas_limit <= 0xffff_ffff_ffff_ffff, gas_price <= 0xffff_ffff_ffff_ffff;
}

/// The encoding of a transaction kind begins with its type identifier.
pub proof fn kind_encoding_starts_with_type(kind: TransactionKind)
    ensures
        kind.encoding().len() > 0,
        kind.encoding()[0] == kind.spec_transaction_type(),
{
}

/// Validator unregistration, availability reports and dispute votes are
/// the system transactions, and they alone may carry a zero gas price: with
/// a gas limit from 1 to 10 000 000, a system transaction is judged by the
/// rules of its kind alone, and any other transaction with a zero gas price
/// is refused for it.
pub proof fn system_transactions_need_no_gas_price(tx: Transaction)
    ensures
        tx.spec_is_system() <==> (tx.kind is ValidatorUnregister || tx.kind is AvailabilityReport
            || tx.kind is DisputeVote),
        1 <= tx.gas_limit.0 <= 10_000_000 && (tx.kind is ValidatorUnregister
            || tx.kind is AvailabilityReport || tx.kind is DisputeVote)
            ==> tx.spec_failure() == tx.kind.kind_failure(),
        1 <= tx.gas_limit.0 <= 10_000_000 && tx.gas_price == 0 && !(tx.kind is ValidatorUnregister
            || tx.kind is AvailabilityReport || tx.kind is DisputeVote)
            ==> tx.spec_failure() == Some((ErrorKind::InvalidTransaction,
                "Gas price cannot be zero for non-system transactions"@)),
{
}

/// The weight of a transaction is 10 000 plus the weight of its kind: a
/// fixed amount per kind, and for the kinds that carry data, a charge per
/// byte of it (10 per byte of call data, 50 per byte of code, 10 per byte of
/// initial state, 5 per byte of availability chunks, 20 per byte of dispute
/// evidence and 10 per byte of a vote's justification).
pub proof fn transaction_weight_table(tx: Transaction)
    ensures
        tx.spec_weight() == 10_000 + match tx.kind {
            TransactionKind::Transfer { .. } => 25_000,
            TransactionKind::ServiceCall { data, .. } => 50_000 + 10 * data@.len(),
            TransactionKind::ServiceDeploy { code, initial_state } => 100_000 + 50 * code@.len()
                + 10 * initial_state@.len(),
            TransactionKind::ServiceUpdate { code, .. } => 80_000 + 50 * code@.len(),
            TransactionKind::ValidatorRegister { .. } => 200_000,
            TransactionKind::ValidatorUnregister => 50_000,
            TransactionKind::Delegate { .. } => 30_000,
            TransactionKind::Undelegate { .. } => 30_000,
            TransactionKind::CoreAssign { .. } => 40_000,
            TransactionKind::AvailabilityReport { chunks, .. } => 60_000 + 5 * total_len(chunks@),
            TransactionKind::DisputeInitiate { evidence, .. } => 150_000 + 20 * evidence@.len(),
            TransactionKind::DisputeVote { justification, .. } => 30_000 + 10 * justification@.len(),
        },
{
}

/// The total length of the chunks of an availability report grows by the
/// length of each chunk added, from zero for none.
pub proof fn chunk_total_adds_up(chunks: Seq<Vec<u8>>, chunk: Vec<u8>)
    ensures
        total_len(Seq::<Vec<u8>>::empty()) == 0,
        total_len(chunks.push(chunk)) == total_len(chunks) + chunk@.len(),
{
    assert(chunks.push(chunk).drop_last() =~= chunks);
}

} // verus!
