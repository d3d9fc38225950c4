//! # JAM Protocol Header Structures
//!
//! Block header definitions for the JAM protocol.
//! Based on the Gray Paper specification for JAM block headers.

use vstd::prelude::*;

use crate::crypto::hashing::{blake3_digest, Blake3Hasher, Hasher};
use crate::types::{AccountId, BlockNumber, Timestamp};
use crate::utils::bytes_equal;
use crate::utils::codec::{starts_with, Decode, Encode, decode_field, decode_extend, DecodeError, field_step, extend_step, step_error};
use crate::{fail, outcome_is, ErrorKind, Failure, Hashable, PrimitiveError, PrimitiveResult, Validate};

verus! {

/// JAM block header
#[derive(Debug, Clone, PartialEq, Eq)]
pub struct Header {
    /// Hash of the parent block
    pub parent_hash: crate::types::Hash,
    /// Block number (height in the chain)
    pub number: BlockNumber,
    /// Block timestamp (milliseconds since Unix epoch)
    pub timestamp: Timestamp,
    /// State root hash after applying this block
    pub state_root: crate::types::Hash,
    /// Hash of extrinsics/transactions root
    pub extrinsics_root: crate::types::Hash,
    /// Additional header data and proofs
    pub digest: Vec<Vec<u8>>,
    /// Block author
    pub author: AccountId,
    /// Current epoch
    pub epoch: u32,
    /// Slot within epoch
    pub slot: u32,
}

/// The failure of a header rule with the given message.
pub open spec fn header_fail(msg: Seq<char>) -> Option<Failure> {
    fail(ErrorKind::InvalidHeader, msg)
}

fn invalid_header(msg: &str) -> (out: PrimitiveError)
    ensures
        out.failure() == (ErrorKind::InvalidHeader, msg@),
{
    PrimitiveError::InvalidHeader(String::from_str(msg))
}

#[verifier::external_type_specification]
#[verifier::external_body]
pub struct ExSystemTime(std::time::SystemTime);

#[verifier::external_type_specification]
#[verifier::external_body]
pub struct ExSystemTimeError(std::time::SystemTimeError);

/// The current time of the system clock (`std::time::SystemTime::now`).
/// Nothing is stated of it: it is the time at the call.
#[verifier::external_body]
fn clock_now() -> std::time::SystemTime {
    std::time::SystemTime::now()
}

/// The time from the Unix epoch to `t` (`SystemTime::duration_since` with
/// `UNIX_EPOCH`), or an error when `t` is earlier than the epoch. Nothing is
/// stated of the result: it follows the clock.
#[verifier::external_body]
fn since_unix_epoch(t: &std::time::SystemTime) -> Result<core::time::Duration, std::time::SystemTimeError> {
    t.duration_since(std::time::UNIX_EPOCH)
}

/// The whole milliseconds in `d` (`Duration::as_millis`). Nothing is stated
/// of the value, which is a reading of the clock.
#[verifier::external_body]
fn duration_millis(d: &core::time::Duration) -> u128 {
    d.as_millis()
}

/// Milliseconds since the Unix epoch on the system clock, or zero when the
/// clock reads earlier than the epoch.
fn system_time_millis() -> u128 {
    let now = clock_now();
    match since_unix_epoch(&now) {
        Ok(d) => duration_millis(&d),
        Err(_) => 0,
    }
}

impl Header {
    /// Whether the header has block number zero.
    pub open spec fn spec_is_genesis(&self) -> bool {
        self.number.0 == 0
    }

    /// The first well-formedness rule that the header breaks, if any.
    pub open spec fn basic_failure(&self) -> Option<Failure> {
        if self.spec_is_genesis() && !self.parent_hash.spec_is_zero() {
            header_fail("Genesis block must have zero parent hash"@)
        } else if !self.spec_is_genesis() && self.parent_hash.spec_is_zero() {
            header_fail("Non-genesis block cannot have zero parent hash"@)
        } else if self.timestamp.0 == 0 {
            header_fail("Header timestamp cannot be zero"@)
        } else if self.digest@.len() > 100 {
            header_fail("Too many digest items"@)
        } else {
            None
        }
    }

    /// The first rule relating the header to `parent` that it breaks, if
    /// any, with `now` as the current time in milliseconds: the parent hash
    /// must be the parent's hash, the number must follow the parent's, the
    /// timestamp must be later than the parent's and at most one minute
    /// ahead of `now`.
    pub open spec fn parent_failure(&self, parent: &Header, now: u64) -> Option<Failure> {
        if self.parent_hash.0@ != blake3_digest(parent.encoding()) {
            header_fail("Parent hash mismatch"@)
        } else if self.number.0 != parent.number.0 + 1 {
            header_fail("Block number is not sequential"@)
        } else if self.timestamp.0 <= parent.timestamp.0 {
            header_fail("Block timestamp must advance"@)
        } else if self.timestamp.0 > now + 60_000 {
            header_fail("Block timestamp too far in the future"@)
        } else {
            None
        }
    }

    /// Create a new header
    pub fn new(
        parent_hash: crate::types::Hash,
        number: BlockNumber,
        timestamp: Timestamp,
        state_root: crate::types::Hash,
        extrinsics_root: crate::types::Hash,
        author: AccountId,
        epoch: u32,
        slot: u32,
    ) -> (out: Self)
        ensures
            out.parent_hash == parent_hash,
            out.number == number,
            out.timestamp == timestamp,
            out.state_root == state_root,
            out.extrinsics_root == extrinsics_root,
            out.digest@ == Seq::<Vec<u8>>::empty(),
            out.author == author,
            out.epoch == epoch,
            out.slot == slot,
    {
        Self {
            parent_hash,
            number,
            timestamp,
            state_root,
            extrinsics_root,
            digest: Vec::new(),
            author,
            epoch,
            slot,
        }
    }

    /// Check if this is a genesis block header
    pub fn is_genesis(&self) -> (out: bool)
        ensures
            out == self.spec_is_genesis(),
    {
        self.number.0 == 0
    }

    /// Get encoded size of the header
    pub fn encoded_size(&self) -> (out: usize)
        requires
            self.encodable(),
        ensures
            out == self.encoding().len(),
    {
        self.encode().len()
    }

    /// Verify the header is well-formed
    pub fn verify_basic(&self) -> (out: PrimitiveResult<()>)
        ensures
            outcome_is(out, self.basic_failure()),
    {
        // Genesis block should have zero parent hash
        if self.is_genesis() && !self.parent_hash.is_zero() {
            return Err(invalid_header("Genesis block must have zero parent hash"));
        }
        // Non-genesis blocks should have non-zero parent hash
        if !self.is_genesis() && self.parent_hash.is_zero() {
            return Err(invalid_header("Non-genesis block cannot have zero parent hash"));
        }
        // Validate timestamp (should be reasonable)
        if self.timestamp.0 == 0 {
            return Err(invalid_header("Header timestamp cannot be zero"));
        }
        // Basic digest validation
        if self.digest.len() > 100 {
            return Err(invalid_header("Too many digest items"));
        }
        Ok(())
    }

    /// Verify header against parent, with `now` as the current time in
    /// milliseconds since the Unix epoch.
    pub fn verify_against_parent_at(&self, parent: &Header, now: u64) -> (out: PrimitiveResult<()>)
        requires
            parent.encodable(),
            self.parent_hash.0@ == blake3_digest(parent.encoding()) ==> parent.number.0 < u32::MAX,
        ensures
            outcome_is(out, self.parent_failure(parent, now)),
    {
        // Check parent hash matches
        if !(self.parent_hash == parent.hash()) {
            return Err(invalid_header("Parent hash mismatch"));
        }
        // Check block number is sequential
        if !(self.number == parent.number + 1) {
            return Err(invalid_header("Block number is not sequential"));
        }
        // Check timestamp is advancing
        if self.timestamp.0 <= parent.timestamp.0 {
            return Err(invalid_header("Block timestamp must advance"));
        }
        // Check timestamp is not too far in the future (one minute)
        if self.timestamp.0 > now && self.timestamp.0 - now > 60_000 {
            return Err(invalid_header("Block timestamp too far in the future"));
        }
        Ok(())
    }

    /// Verify header against parent, at the current time of the system clock.
    pub fn verify_against_parent(&self, parent: &Header) -> (out: PrimitiveResult<()>)
        requires
            parent.encodable(),
            self.parent_hash.0@ == blake3_digest(parent.encoding()) ==> parent.number.0 < u32::MAX,
        ensures
            exists|now: u64| outcome_is(out, #[trigger] self.parent_failure(parent, now)),
    {
        let now = system_time_millis() as u64;
        self.verify_against_parent_at(parent, now)
    }

    /// Verify header against parent at the current time of the system clock,
    /// where that can be done: `None` when the header names the parent by
    /// its hash but the parent's block number is the largest a block number
    /// can be, so that no number can follow it.
    pub fn checked_verify_against_parent(&self, parent: &Header) -> (out: Option<PrimitiveResult<()>>)
        requires
            parent.encodable(),
        ensures
            out is None <==> (self.parent_hash.0@ == blake3_digest(parent.encoding())
                && parent.number.0 == u32::MAX),
            match out {
                Some(r) => exists|now: u64| outcome_is(r, #[trigger] self.parent_failure(parent, now)),
                None => true,
            },
    {
        if parent.number.0 == u32::MAX {
            let parent_hash = parent.hash();
            if bytes_equal(self.parent_hash.as_ref(), parent_hash.as_ref()) {
                return None;
            }
        }
        Some(self.verify_against_parent(parent))
    }
}

impl Encode for Header {
    open spec fn encodable(&self) -> bool {
        self.digest.encodable()
    }

    open spec fn encoding(&self) -> Seq<u8> {
        self.parent_hash.encoding() + self.number.encoding() + self.timestamp.encoding()
            + self.state_root.encoding() + self.extrinsics_root.encoding()
            + self.digest.encoding() + self.author.encoding() + self.epoch.encoding()
            + self.slot.encoding()
    }

    fn encode_to(&self, dest: &mut Vec<u8>) {
        self.parent_hash.encode_to(dest);
        self.number.encode_to(dest);
        self.timestamp.encode_to(dest);
        self.state_root.encode_to(dest);
        self.extrinsics_root.encode_to(dest);
        self.digest.encode_to(dest);
        self.author.encode_to(dest);
        self.epoch.encode_to(dest);
        self.slot.encode_to(dest);
        assert(dest@ =~= old(dest)@ + self.encoding());
    }
}

/// The fields of a [`Header`] in the order of its encoding, nested in pairs.
pub type HeaderFields = ((((((((crate::types::Hash, BlockNumber), Timestamp), crate::types::Hash), crate::types::Hash), Vec<Vec<u8>>), AccountId), u32), u32);

impl Header {
    /// The fields as a [`HeaderFields`].
    pub closed spec fn field_tuple(&self) -> HeaderFields {
        ((((((((self.parent_hash, self.number), self.timestamp), self.state_root), self.extrinsics_root), self.digest), self.author), self.epoch), self.slot)
    }
}

impl Decode for Header {
    proof fn lemma_prefix_unique(a: Self, b: Self, s: Seq<u8>) {
        <HeaderFields as Decode>::lemma_prefix_unique(a.field_tuple(), b.field_tuple(), s);
    }

    open spec fn decode_error(bytes: Seq<u8>, pos: int) -> Seq<Seq<char>> {
        step_error(extend_step::<u32>(bytes, extend_step::<u32>(bytes, extend_step::<AccountId>(bytes, extend_step::<Vec<Vec<u8>>>(bytes, extend_step::<crate::types::Hash>(bytes, extend_step::<crate::types::Hash>(bytes, extend_step::<Timestamp>(bytes, extend_step::<BlockNumber>(bytes, field_step::<crate::types::Hash>(bytes, pos, "Could not decode `Header::parent_hash`"@), "Could not decode `Header::number`"@), "Could not decode `Header::timestamp`"@), "Could not decode `Header::state_root`"@), "Could not decode `Header::extrinsics_root`"@), "Could not decode `Header::digest`"@), "Could not decode `Header::author`"@), "Could not decode `Header::epoch`"@), "Could not decode `Header::slot`"@))
    }

    fn decode_at(bytes: &[u8], pos: usize) -> (out: Result<(Self, usize), DecodeError>) {
        let ghost r0 = field_step::<crate::types::Hash>(bytes@, pos as int, "Could not decode `Header::parent_hash`"@);
        let r = decode_field::<crate::types::Hash>(bytes, pos, "Could not decode `Header::parent_hash`");
        let ghost r1 = extend_step::<BlockNumber>(bytes@, r0, "Could not decode `Header::number`"@);
        let r = decode_extend::<crate::types::Hash, BlockNumber>(bytes, pos, r, Ghost(r0), "Could not decode `Header::number`");
        let ghost r2 = extend_step::<Timestamp>(bytes@, r1, "Could not decode `Header::timestamp`"@);
        let r = decode_extend::<(crate::types::Hash, BlockNumber), Timestamp>(bytes, pos, r, Ghost(r1), "Could not decode `Header::timestamp`");
        let ghost r3 = extend_step::<crate::types::Hash>(bytes@, r2, "Could not decode `Header::state_root`"@);
        let r = decode_extend::<((crate::types::Hash, BlockNumber), Timestamp), crate::types::Hash>(bytes, pos, r, Ghost(r2), "Could not decode `Header::state_root`");
        let ghost r4 = extend_step::<crate::types::Hash>(bytes@, r3, "Could not decode `Header::extrinsics_root`"@);
        let r = decode_extend::<(((crate::types::Hash, BlockNumber), Timestamp), crate::types::Hash), crate::types::Hash>(bytes, pos, r, Ghost(r3), "Could not decode `Header::extrinsics_root`");
        let ghost r5 = extend_step::<Vec<Vec<u8>>>(bytes@, r4, "Could not decode `Header::digest`"@);
        let r = decode_extend::<((((crate::types::Hash, BlockNumber), Timestamp), crate::types::Hash), crate::types::Hash), Vec<Vec<u8>>>(bytes, pos, r, Ghost(r4), "Could not decode `Header::digest`");
        let ghost r6 = extend_step::<AccountId>(bytes@, r5, "Could not decode `Header::author`"@);
        let r = decode_extend::<(((((crate::types::Hash, BlockNumber), Timestamp), crate::types::Hash), crate::types::Hash), Vec<Vec<u8>>), AccountId>(bytes, pos, r, Ghost(r5), "Could not decode `Header::author`");
        let ghost r7 = extend_step::<u32>(bytes@, r6, "Could not decode `Header::epoch`"@);
        let r = decode_extend::<((((((crate::types::Hash, BlockNumber), Timestamp), crate::types::Hash), crate::types::Hash), Vec<Vec<u8>>), AccountId), u32>(bytes, pos, r, Ghost(r6), "Could not decode `Header::epoch`");
        let ghost r8 = extend_step::<u32>(bytes@, r7, "Could not decode `Header::slot`"@);
        let r = decode_extend::<(((((((crate::types::Hash, BlockNumber), Timestamp), crate::types::Hash), crate::types::Hash), Vec<Vec<u8>>), AccountId), u32), u32>(bytes, pos, r, Ghost(r7), "Could not decode `Header::slot`");
        match r {
            Ok((t, end)) => {
                let ((((((((parent_hash, number), timestamp), state_root), extrinsics_root), digest), author), epoch), slot) = t;
                let v = Header { parent_hash, number, timestamp, state_root, extrinsics_root, digest, author, epoch, slot };
                assert(v.field_tuple() == t);
                Ok((v, end))
            },
            Err(e) => {
                assert forall|v: Header| v.encodable() implies !starts_with(
                    bytes@.skip(pos as int),
                    #[trigger] v.encoding(),
                ) by {
                    assert(v.field_tuple().encoding() == v.encoding());
                    assert(v.field_tuple().encodable());
                }
                Err(e)
            },
        }
    }

    open spec fn width() -> Option<nat> {
        None
    }

    fn fixed_width() -> (out: Option<usize>) {
        None
    }
}

impl Validate for Header {
    open spec fn validation_ready(&self) -> bool {
        true
    }

    open spec fn validation_failure(&self) -> Option<Failure> {
        self.basic_failure()
    }

    fn validate(&self) -> (out: PrimitiveResult<()>) {
        self.verify_basic()
    }
}

impl Hashable for Header {
    open spec fn hash_ready(&self) -> bool {
        self.encodable()
    }

    open spec fn hashed_bytes(&self) -> Seq<u8> {
        self.encoding()
    }

    fn hash(&self) -> (out: crate::types::Hash) {
        let hasher = Blake3Hasher::new();
        let bytes = self.encode();
        hasher.hash(bytes.as_slice())
    }
}

/// A header that passes the basic checks is a genesis header exactly when
/// its parent hash is zero.
pub proof fn valid_header_genesis_iff_zero_parent(header: Header)
    requires
        header.basic_failure() is None,
    ensures
        header.spec_is_genesis() <==> header.parent_hash.spec_is_zero(),
{
}

/// A child built on `parent` verifies against it: when its parent hash is
/// the parent's hash, its number the next one, and its timestamp later than
/// the parent's and at most one minute ahead of `now`, no rule fails.
pub proof fn child_of_parent_verifies(child: Header, parent: Header, now: u64)
    requires
        child.parent_hash.0@ == blake3_digest(parent.encoding()),
        child.number.0 == parent.number.0 + 1,
        parent.timestamp.0 < child.timestamp.0,
        child.timestamp.0 <= now + 60_000,
    ensures
        child.parent_failure(&parent, now) is None,
{
}

/// Header digest item
#[derive(Debug, Clone, PartialEq, Eq)]
pub struct HeaderDigest {
    /// Engine identifier
    pub engine_id: [u8; 4],
    /// Digest data
    pub data: Vec<u8>,
}

impl HeaderDigest {
    /// Create new digest item
    pub fn new(engine_id: [u8; 4], data: Vec<u8>) -> (out: Self)
        ensures
            out.engine_id == engine_id,
            out.data == data,
    {
        Self { engine_id, data }
    }
}

impl Encode for HeaderDigest {
    open spec fn encodable(&self) -> bool {
        self.data.encodable()
    }

    open spec fn encoding(&self) -> Seq<u8> {
        self.engine_id.encoding() + self.data.encoding()
    }

    fn encode_to(&self, dest: &mut Vec<u8>) {
        self.engine_id.encode_to(dest);
        self.data.encode_to(dest);
        assert(dest@ =~= old(dest)@ + self.encoding());
    }
}

/// The fields of a [`HeaderDigest`] in the order of its encoding, nested in pairs.
pub type HeaderDigestFields = ([u8; 4], Vec<u8>);

impl HeaderDigest {
    /// The fields as a [`HeaderDigestFields`].
    pub closed spec fn field_tuple(&self) -> HeaderDigestFields {
        (self.engine_id, self.data)
    }
}

impl Decode for HeaderDigest {
    proof fn lemma_prefix_unique(a: Self, b: Self, s: Seq<u8>) {
        <HeaderDigestFields as Decode>::lemma_prefix_unique(a.field_tuple(), b.field_tuple(), s);
    }

    open spec fn decode_error(bytes: Seq<u8>, pos: int) -> Seq<Seq<char>> {
        step_error(extend_step::<Vec<u8>>(bytes, field_step::<[u8; 4]>(bytes, pos, "Could not decode `HeaderDigest::engine_id`"@), "Could not decode `HeaderDigest::data`"@))
    }

    fn decode_at(bytes: &[u8], pos: usize) -> (out: Result<(Self, usize), DecodeError>) {
        let ghost r0 = field_step::<[u8; 4]>(bytes@, pos as int, "Could not decode `HeaderDigest::engine_id`"@);
        let r = decode_field::<[u8; 4]>(bytes, pos, "Could not decode `HeaderDigest::engine_id`");
        let ghost r1 = extend_step::<Vec<u8>>(bytes@, r0, "Could not decode `HeaderDigest::data`"@);
        let r = decode_extend::<[u8; 4], Vec<u8>>(bytes, pos, r, Ghost(r0), "Could not decode `HeaderDigest::data`");
        match r {
            Ok((t, end)) => {
                let (engine_id, data) = t;
                let v = HeaderDigest { engine_id, data };
                assert(v.field_tuple() == t);
                Ok((v, end))
            },
            Err(e) => {
                assert forall|v: HeaderDigest| v.encodable() implies !starts_with(
                    bytes@.skip(pos as int),
                    #[trigger] v.encoding(),
                ) by {
                    assert(v.field_tuple().encoding() == v.encoding());
                    assert(v.field_tuple().encodable());
                }
                Err(e)
            },
        }
    }

    open spec fn width() -> Option<nat> {
        None
    }

    fn fixed_width() -> (out: Option<usize>) {
        None
    }
}

} // verus!
