//! # JAM Protocol Block Structures
//!
//! Block and block body definitions for the JAM protocol.
//! Based on the Gray Paper specification for JAM block structure.

use vstd::prelude::*;

use crate::crypto::hashing::{blake3_digest, Blake3Hasher, Hasher};
use crate::header::Header;
use crate::text::{decimal, decimal_string};
use crate::transaction::Transaction;
use crate::types::{AccountId, BlockNumber, Gas, ServiceId, Signature, TimeSlot, Timestamp, Weight};
use crate::utils::codec::{Canonical, starts_with, Decode, Encode, decode_field, decode_extend, DecodeError, field_step, extend_step, step_error};
use crate::{
    display_text, fail, outcome_is, ErrorKind, Failure, Hashable, PrimitiveError, PrimitiveResult,
    Validate,
};

verus! {

/// The first failure in `s`, with its position.
pub open spec fn first_failure(s: Seq<Option<Failure>>) -> Option<(int, Failure)>
    decreases s.len(),
{
    if s.len() == 0 {
        None
    } else {
        match first_failure(s.drop_last()) {
            Some(p) => Some(p),
            None => match s.last() {
                Some(f) => Some(((s.len() - 1) as int, f)),
                None => None,
            },
        }
    }
}

proof fn lemma_first_failure_step(s: Seq<Option<Failure>>, i: int)
    requires
        0 <= i < s.len(),
        first_failure(s.take(i)) is None,
    ensures
        first_failure(s.take(i + 1)) == match s[i] {
            Some(f) => Some((i, f)),
            None => None::<(int, Failure)>,
        },
{
    assert(s.take(i + 1).drop_last() =~= s.take(i));
}

proof fn lemma_first_failure_prefix(s: Seq<Option<Failure>>, k: int)
    requires
        0 <= k <= s.len(),
        first_failure(s.take(k)) is Some,
    ensures
        first_failure(s) == first_failure(s.take(k)),
    decreases s.len(),
{
    if k == s.len() {
        assert(s.take(k) =~= s);
    } else {
        assert(s.drop_last().take(k) =~= s.take(k));
        lemma_first_failure_prefix(s.drop_last(), k);
    }
}

/// The message of a block failure caused by the failure `f` of the item at
/// position `i` of a list of `what`.
pub open spec fn item_failure(what: Seq<char>, i: int, f: Failure) -> Failure {
    (
        ErrorKind::InvalidBlock,
        "Invalid "@ + what + " at index "@ + decimal(i as nat) + ": "@ + display_text(f),
    )
}

fn item_error(what: &str, i: usize, e: &PrimitiveError) -> (out: PrimitiveError)
    ensures
        out.failure() == item_failure(what@, i as int, e.failure()),
{
    let mut msg = String::from_str("Invalid ");
    msg.append(what);
    msg.append(" at index ");
    let index = decimal_string(i);
    msg.append(index.as_str());
    msg.append(": ");
    let inner = e.to_display_string();
    msg.append(inner.as_str());
    PrimitiveError::InvalidBlock(msg)
}

/// The failure of a block rule with the given message.
pub open spec fn block_fail(msg: Seq<char>) -> Option<Failure> {
    fail(ErrorKind::InvalidBlock, msg)
}

fn invalid_block(msg: &str) -> (out: PrimitiveError)
    ensures
        out.failure() == (ErrorKind::InvalidBlock, msg@),
{
    PrimitiveError::InvalidBlock(String::from_str(msg))
}

fn size_limit(msg: &str) -> (out: PrimitiveError)
    ensures
        out.failure() == (ErrorKind::SizeLimit, msg@),
{
    PrimitiveError::SizeLimit(String::from_str(msg))
}

/// A complete JAM block containing header and body
#[derive(Debug, Clone, PartialEq, Eq)]
pub struct Block {
    /// Block header containing metadata
    pub header: Header,
    /// Block body containing transactions and other data
    pub body: BlockBody,
}

impl Block {
    /// The size of the encoded block: header and body.
    pub open spec fn spec_size(&self) -> nat {
        self.header.encoding().len() + self.body.encoding().len()
    }

    /// Whether the block can be encoded and its size counted in a `usize`.
    pub open spec fn size_fits(&self) -> bool {
        &&& self.header.encodable()
        &&& self.body.encodable()
        &&& self.spec_size() <= usize::MAX
    }

    /// Create a new block
    pub fn new(header: Header, body: BlockBody) -> (out: Self)
        ensures
            out.header == header,
            out.body == body,
    {
        Self { header, body }
    }

    /// Get block number
    pub fn number(&self) -> (out: BlockNumber)
        ensures
            out == self.header.number,
    {
        self.header.number
    }

    /// Get block hash (header hash)
    pub fn hash(&self) -> (out: crate::types::Hash)
        requires
            self.header.encodable(),
        ensures
            out.0@ == blake3_digest(self.header.encoding()),
    {
        self.header.hash()
    }

    /// Get parent hash
    pub fn parent_hash(&self) -> (out: crate::types::Hash)
        ensures
            out == self.header.parent_hash,
    {
        self.header.parent_hash
    }

    /// Get block timestamp
    pub fn timestamp(&self) -> (out: Timestamp)
        ensures
            out == self.header.timestamp,
    {
        self.header.timestamp
    }

    /// Get block weight
    pub fn weight(&self) -> (out: Weight)
        requires
            self.body.weight_fits(),
        ensures
            out.0 == self.body.spec_weight(),
    {
        self.body.weight()
    }

    /// Check if this is a genesis block
    pub fn is_genesis(&self) -> (out: bool)
        ensures
            out == (self.header.number.0 == 0),
    {
        self.header.number.0 == 0
    }

    /// Get all transactions in the block
    pub fn transactions(&self) -> (out: &[Transaction])
        ensures
            out@ == self.body.transactions@,
    {
        self.body.transactions.as_slice()
    }

    /// Get block size in bytes
    pub fn size(&self) -> (out: usize)
        requires
            self.size_fits(),
        ensures
            out == self.spec_size(),
    {
        self.header.encoded_size() + self.body.encoded_size()
    }
}

impl Encode for Block {
    open spec fn encodable(&self) -> bool {
        self.header.encodable() && self.body.encodable()
    }

    open spec fn encoding(&self) -> Seq<u8> {
        self.header.encoding() + self.body.encoding()
    }

    fn encode_to(&self, dest: &mut Vec<u8>) {
        self.header.encode_to(dest);
        self.body.encode_to(dest);
        assert(dest@ =~= old(dest)@ + self.encoding());
    }
}

/// The fields of a [`Block`] in the order of its encoding, nested in pairs.
pub type BlockFields = (Header, BlockBody);

impl Block {
    /// The fields as a [`BlockFields`].
    pub closed spec fn field_tuple(&self) -> BlockFields {
        (self.header, self.body)
    }
}

impl Decode for Block {
    proof fn lemma_prefix_unique(a: Self, b: Self, s: Seq<u8>) {
        <BlockFields as Decode>::lemma_prefix_unique(a.field_tuple(), b.field_tuple(), s);
    }

    open spec fn decode_error(bytes: Seq<u8>, pos: int) -> Seq<Seq<char>> {
        step_error(extend_step::<BlockBody>(bytes, field_step::<Header>(bytes, pos, "Could not decode `Block::header`"@), "Could not decode `Block::body`"@))
    }

    fn decode_at(bytes: &[u8], pos: usize) -> (out: Result<(Self, usize), DecodeError>) {
        let ghost r0 = field_step::<Header>(bytes@, pos as int, "Could not decode `Block::header`"@);
        let r = decode_field::<Header>(bytes, pos, "Could not decode `Block::header`");
        let ghost r1 = extend_step::<BlockBody>(bytes@, r0, "Could not decode `Block::body`"@);
        let r = decode_extend::<Header, BlockBody>(bytes, pos, r, Ghost(r0), "Could not decode `Block::body`");
        match r {
            Ok((t, end)) => {
                let (header, body) = t;
                let v = Block { header, body };
                assert(v.field_tuple() == t);
                Ok((v, end))
            },
            Err(e) => {
                assert forall|v: Block| v.encodable() implies !starts_with(
                    bytes@.skip(pos as int),
                    #[trigger] v.encoding(),
                ) by {
                    assert(v.field_tuple().encoding() == v.encoding());
                    assert(v.field_tuple().encodable());
                }
                Err(e)
            },
        }
    }

    open spec fn width() -> Option<nat> {
        None
    }

    fn fixed_width() -> (out: Option<usize>) {
        None
    }
}

impl Validate for Block {
    /// The body is validated once the header passes, and it is hashed and
    /// the block's size counted once the body passes too.
    open spec fn validation_ready(&self) -> bool {
        &&& self.header.basic_failure() is None ==> self.body.validation_ready()
        &&& self.header.basic_failure() is None && self.body.spec_failure() is None ==> self.size_fits()
    }

    open spec fn validation_failure(&self) -> Option<Failure> {
        match self.header.basic_failure() {
            Some(f) => Some(f),
            None => match self.body.spec_failure() {
                Some(f) => Some(f),
                None => if self.header.extrinsics_root.0@ != blake3_digest(self.body.encoding()) {
                    block_fail("Header extrinsics root doesn't match computed body hash"@)
                } else if self.spec_size() > 4 * 1024 * 1024 {
                    fail(ErrorKind::SizeLimit, "Block exceeds maximum size limit"@)
                } else {
                    None
                },
            },
        }
    }

    fn validate(&self) -> (out: PrimitiveResult<()>) {
        // Validate header
        match self.header.validate() {
            Ok(()) => {},
            Err(e) => {
                return Err(e);
            },
        }
        // Validate body
        match self.body.validate() {
            Ok(()) => {},
            Err(e) => {
                return Err(e);
            },
        }
        // Validate header-body consistency
        if !(self.header.extrinsics_root == self.body.hash()) {
            return Err(invalid_block("Header extrinsics root doesn't match computed body hash"));
        }
        // Validate block size
        if self.size() > crate::constants::MAX_BLOCK_SIZE as usize {
            return Err(size_limit("Block exceeds maximum size limit"));
        }
        Ok(())
    }
}

impl Hashable for Block {
    open spec fn hash_ready(&self) -> bool {
        self.header.encodable()
    }

    open spec fn hashed_bytes(&self) -> Seq<u8> {
        self.header.encoding()
    }

    fn hash(&self) -> (out: crate::types::Hash) {
        self.header.hash()
    }
}

/// A block that passes validation is consistent and small: its header passes
/// the basic checks, its extrinsics root is the hash of its body, and its
/// encoded size is at most the maximum block size.
pub proof fn valid_block_is_consistent(block: Block)
    requires
        block.validation_failure() is None,
    ensures
        block.header.basic_failure() is None,
        block.body.spec_failure() is None,
        block.header.extrinsics_root.0@ == blake3_digest(block.body.encoding()),
        block.spec_size() <= 4 * 1024 * 1024,
{
}

/// A body passes validation exactly when every transaction, work report and
/// guarantee in it does.
pub proof fn body_valid_iff_items_valid(body: BlockBody)
    ensures
        body.spec_failure() is None <==> (
            (forall|i: int| 0 <= i < body.transactions@.len()
                ==> (#[trigger] body.transactions@[i]).spec_failure() is None)
            && (forall|i: int| 0 <= i < body.work_reports@.len()
                ==> (#[trigger] body.work_reports@[i]).spec_failure() is None)
            && (forall|i: int| 0 <= i < body.guarantees@.len()
                ==> (#[trigger] body.guarantees@[i]).spec_failure() is None)),
{
    lemma_first_failure_none(body.transactions@.map_values(|t: Transaction| t.spec_failure()));
    lemma_first_failure_none(body.work_reports@.map_values(|w: WorkReport| w.spec_failure()));
    lemma_first_failure_none(body.guarantees@.map_values(|g: Guarantee| g.spec_failure()));
    assert forall|i: int| 0 <= i < body.transactions@.len() implies
        body.transactions@.map_values(|t: Transaction| t.spec_failure())[i]
            == (#[trigger] body.transactions@[i]).spec_failure() by {}
    assert forall|i: int| 0 <= i < body.work_reports@.len() implies
        body.work_reports@.map_values(|w: WorkReport| w.spec_failure())[i]
            == (#[trigger] body.work_reports@[i]).spec_failure() by {}
    assert forall|i: int| 0 <= i < body.guarantees@.len() implies
        body.guarantees@.map_values(|g: Guarantee| g.spec_failure())[i]
            == (#[trigger] body.guarantees@[i]).spec_failure() by {}
}

proof fn lemma_first_failure_none(s: Seq<Option<Failure>>)
    ensures
        first_failure(s) is None <==> (forall|i: int| 0 <= i < s.len() ==> (#[trigger] s[i]) is None),
    decreases s.len(),
{
    if s.len() > 0 {
        lemma_first_failure_none(s.drop_last());
        assert forall|i: int| 0 <= i < s.len() - 1 implies s.drop_last()[i] == (#[trigger] s[i]) by {}
    }
}

/// The total weight of a list of transactions.
pub open spec fn total_tx_weight(txs: Seq<Transaction>) -> nat
    decreases txs.len(),
{
    if txs.len() == 0 {
        0
    } else {
        total_tx_weight(txs.drop_last()) + txs.last().spec_weight()
    }
}

proof fn lemma_total_tx_weight_prefix(txs: Seq<Transaction>, i: int)
    requires
        0 <= i <= txs.len(),
    ensures
        total_tx_weight(txs.take(i)) <= total_tx_weight(txs),
    decreases txs.len(),
{
    if i < txs.len() {
        assert(txs.drop_last().take(i) =~= txs.take(i));
        lemma_total_tx_weight_prefix(txs.drop_last(), i);
    } else {
        assert(txs.take(i) =~= txs);
    }
}

/// The total number of bytes of a list of preimages.
pub open spec fn total_preimage_len(ps: Seq<Preimage>) -> nat
    decreases ps.len(),
{
    if ps.len() == 0 {
        0
    } else {
        total_preimage_len(ps.drop_last()) + ps.last().data@.len()
    }
}

proof fn lemma_total_preimage_len_prefix(ps: Seq<Preimage>, i: int)
    requires
        0 <= i <= ps.len(),
    ensures
        total_preimage_len(ps.take(i)) <= total_preimage_len(ps),
    decreases ps.len(),
{
    if i < ps.len() {
        assert(ps.drop_last().take(i) =~= ps.take(i));
        lemma_total_preimage_len_prefix(ps.drop_last(), i);
    } else {
        assert(ps.take(i) =~= ps);
    }
}

/// Block body containing the actual block data
#[derive(Debug, Clone, PartialEq, Eq)]
pub struct BlockBody {
    /// List of transactions in this block
    pub transactions: Vec<Transaction>,
    /// Availability data for erasure coding
    pub availability: AvailabilityData,
    /// Work reports from cores
    pub work_reports: Vec<WorkReport>,
    /// Guarantees for parachain blocks
    pub guarantees: Vec<Guarantee>,
    /// Preimages for services
    pub preimages: Vec<Preimage>,
}

impl BlockBody {
    /// The weight of the body: the weights of its transactions, 1000 per
    /// work report, 500 per guarantee, and one per preimage byte.
    pub open spec fn spec_weight(&self) -> nat {
        total_tx_weight(self.transactions@) + self.work_reports@.len() * 1000
            + self.guarantees@.len() * 500 + total_preimage_len(self.preimages@)
    }

    /// Whether computing the weight stays within the integer widths.
    pub open spec fn weight_fits(&self) -> bool {
        &&& forall|i: int|
            0 <= i < self.transactions@.len() ==> (#[trigger] self.transactions@[i]).weight_fits()
        &&& self.spec_weight() <= u64::MAX
    }

    /// The first rule that the body breaks, if any: the first invalid
    /// transaction, else the first invalid work report, else the first
    /// invalid guarantee, reported with its position.
    pub open spec fn spec_failure(&self) -> Option<Failure> {
        match first_failure(self.transactions@.map_values(|t: Transaction| t.spec_failure())) {
            Some((i, f)) => Some(item_failure("transaction"@, i, f)),
            None => match first_failure(
                self.work_reports@.map_values(|w: WorkReport| w.spec_failure()),
            ) {
                Some((i, f)) => Some(item_failure("work report"@, i, f)),
                None => match first_failure(
                    self.guarantees@.map_values(|g: Guarantee| g.spec_failure()),
                ) {
                    Some((i, f)) => Some(item_failure("guarantee"@, i, f)),
                    None => None,
                },
            },
        }
    }

    /// Create a new empty block body
    pub fn new() -> (out: Self)
        ensures
            out.transactions@.len() == 0,
            out.availability.chunks@.len() == 0,
            out.work_reports@.len() == 0,
            out.guarantees@.len() == 0,
            out.preimages@.len() == 0,
    {
        Self {
            transactions: Vec::new(),
            availability: AvailabilityData::new(),
            work_reports: Vec::new(),
            guarantees: Vec::new(),
            preimages: Vec::new(),
        }
    }

    /// Create a block body with transactions
    pub fn with_transactions(transactions: Vec<Transaction>) -> (out: Self)
        ensures
            out.transactions == transactions,
            out.availability.chunks@.len() == 0,
            out.work_reports@.len() == 0,
            out.guarantees@.len() == 0,
            out.preimages@.len() == 0,
    {
        Self {
            transactions,
            availability: AvailabilityData::new(),
            work_reports: Vec::new(),
            guarantees: Vec::new(),
            preimages: Vec::new(),
        }
    }

    /// Add a transaction to the block body
    pub fn add_transaction(&mut self, transaction: Transaction)
        ensures
            final(self).transactions@ == old(self).transactions@.push(transaction),
            final(self).availability == old(self).availability,
            final(self).work_reports == old(self).work_reports,
            final(self).guarantees == old(self).guarantees,
            final(self).preimages == old(self).preimages,
    {
        self.transactions.push(transaction);
    }

    /// Get total weight of all items in the body
    pub fn weight(&self) -> (out: Weight)
        requires
            self.weight_fits(),
        ensures
            out.0 == self.spec_weight(),
    {
        let mut tx_total: u64 = 0;
        let mut i: usize = 0;
        while i < self.transactions.len()
            invariant
                i <= self.transactions@.len(),
                self.weight_fits(),
                tx_total == total_tx_weight(self.transactions@.take(i as int)),
            decreases self.transactions@.len() - i,
        {
            proof {
                assert(self.transactions@.take(i + 1).drop_last() =~= self.transactions@.take(
                    i as int,
                ));
                lemma_total_tx_weight_prefix(self.transactions@, i + 1);
            }
            let w = self.transactions[i].weight();
            tx_total = tx_total + w.0;
            i = i + 1;
        }
        assert(self.transactions@.take(self.transactions@.len() as int) =~= self.transactions@);
        let reports = self.work_reports.len() as u64 * 1000;
        let guarantees = self.guarantees.len() as u64 * 500;
        let mut preimage_total: u64 = 0;
        let mut j: usize = 0;
        while j < self.preimages.len()
            invariant
                j <= self.preimages@.len(),
                self.weight_fits(),
                preimage_total == total_preimage_len(self.preimages@.take(j as int)),
            decreases self.preimages@.len() - j,
        {
            proof {
                assert(self.preimages@.take(j + 1).drop_last() =~= self.preimages@.take(j as int));
                lemma_total_preimage_len_prefix(self.preimages@, j + 1);
            }
            preimage_total = preimage_total + self.preimages[j].data.len() as u64;
            j = j + 1;
        }
        assert(self.preimages@.take(self.preimages@.len() as int) =~= self.preimages@);
        Weight(tx_total + reports + guarantees + preimage_total)
    }

    /// Get number of transactions
    pub fn transaction_count(&self) -> (out: usize)
        ensures
            out == self.transactions@.len(),
    {
        self.transactions.len()
    }

    /// Check if body is empty
    pub fn is_empty(&self) -> (out: bool)
        ensures
            out == (self.transactions@.len() == 0 && self.work_reports@.len() == 0
                && self.guarantees@.len() == 0 && self.preimages@.len() == 0),
    {
        self.transactions.len() == 0 && self.work_reports.len() == 0 && self.guarantees.len() == 0
            && self.preimages.len() == 0
    }

    /// Get encoded size
    pub fn encoded_size(&self) -> (out: usize)
        requires
            self.encodable(),
        ensures
            out == self.encoding().len(),
    {
        self.encode().len()
    }
}

impl Default for BlockBody {
    fn default() -> (out: Self)
        ensures
            out.transactions@.len() == 0,
            out.availability.chunks@.len() == 0,
            out.work_reports@.len() == 0,
            out.guarantees@.len() == 0,
            out.preimages@.len() == 0,
    {
        Self::new()
    }
}

impl Encode for BlockBody {
    open spec fn encodable(&self) -> bool {
        &&& self.transactions.encodable()
        &&& self.availability.encodable()
        &&& self.work_reports.encodable()
        &&& self.guarantees.encodable()
        &&& self.preimages.encodable()
    }

    open spec fn encoding(&self) -> Seq<u8> {
        self.transactions.encoding() + self.availability.encoding() + self.work_reports.encoding()
            + self.guarantees.encoding() + self.preimages.encoding()
    }

    fn encode_to(&self, dest: &mut Vec<u8>) {
        self.transactions.encode_to(dest);
        self.availability.encode_to(dest);
        self.work_reports.encode_to(dest);
        self.guarantees.encode_to(dest);
        self.preimages.encode_to(dest);
        assert(dest@ =~= old(dest)@ + self.encoding());
    }
}

/// The fields of a [`BlockBody`] in the order of its encoding, nested in pairs.
pub type BlockBodyFields = ((((Vec<Transaction>, AvailabilityData), Vec<WorkReport>), Vec<Guarantee>), Vec<Preimage>);

impl BlockBody {
    /// The fields as a [`BlockBodyFields`].
    pub closed spec fn field_tuple(&self) -> BlockBodyFields {
        ((((self.transactions, self.availability), self.work_reports), self.guarantees), self.preimages)
    }
}

impl Decode for BlockBody {
    proof fn lemma_prefix_unique(a: Self, b: Self, s: Seq<u8>) {
        <BlockBodyFields as Decode>::lemma_prefix_unique(a.field_tuple(), b.field_tuple(), s);
    }

    open spec fn decode_error(bytes: Seq<u8>, pos: int) -> Seq<Seq<char>> {
        step_error(extend_step::<Vec<Preimage>>(bytes, extend_step::<Vec<Guarantee>>(bytes, extend_step::<Vec<WorkReport>>(bytes, extend_step::<AvailabilityData>(bytes, field_step::<Vec<Transaction>>(bytes, pos, "Could not decode `BlockBody::transactions`"@), "Could not decode `BlockBody::availability`"@), "Could not decode `BlockBody::work_reports`"@), "Could not decode `BlockBody::guarantees`"@), "Could not decode `BlockBody::preimages`"@))
    }

    fn decode_at(bytes: &[u8], pos: usize) -> (out: Result<(Self, usize), DecodeError>) {
        let ghost r0 = field_step::<Vec<Transaction>>(bytes@, pos as int, "Could not decode `BlockBody::transactions`"@);
        let r = decode_field::<Vec<Transaction>>(bytes, pos, "Could not decode `BlockBody::transactions`");
        let ghost r1 = extend_step::<AvailabilityData>(bytes@, r0, "Could not decode `BlockBody::availability`"@);
        let r = decode_extend::<Vec<Transaction>, AvailabilityData>(bytes, pos, r, Ghost(r0), "Could not decode `BlockBody::availability`");
        let ghost r2 = extend_step::<Vec<WorkReport>>(bytes@, r1, "Could not decode `BlockBody::work_reports`"@);
        let r = decode_extend::<(Vec<Transaction>, AvailabilityData), Vec<WorkReport>>(bytes, pos, r, Ghost(r1), "Could not decode `BlockBody::work_reports`");
        let ghost r3 = extend_step::<Vec<Guarantee>>(bytes@, r2, "Could not decode `BlockBody::guarantees`"@);
        let r = decode_extend::<((Vec<Transaction>, AvailabilityData), Vec<WorkReport>), Vec<Guarantee>>(bytes, pos, r, Ghost(r2), "Could not decode `BlockBody::guarantees`");
        let ghost r4 = extend_step::<Vec<Preimage>>(bytes@, r3, "Could not decode `BlockBody::preimages`"@);
        let r = decode_extend::<(((Vec<Transaction>, AvailabilityData), Vec<WorkReport>), Vec<Guarantee>), Vec<Preimage>>(bytes, pos, r, Ghost(r3), "Could not decode `BlockBody::preimages`");
        match r {
            Ok((t, end)) => {
                let ((((transactions, availability), work_reports), guarantees), preimages) = t;
                let v = BlockBody { transactions, availability, work_reports, guarantees, preimages };
                assert(v.field_tuple() == t);
                Ok((v, end))
            },
            Err(e) => {
                assert forall|v: BlockBody| v.encodable() implies !starts_with(
                    bytes@.skip(pos as int),
                    #[trigger] v.encoding(),
                ) by {
                    assert(v.field_tuple().encoding() == v.encoding());
                    assert(v.field_tuple().encodable());
                }
                Err(e)
            },
        }
    }

    open spec fn width() -> Option<nat> {
        None
    }

    fn fixed_width() -> (out: Option<usize>) {
        None
    }
}

impl Validate for BlockBody {
    /// Each transaction that validation reaches, because every one before
    /// it passed, can be validated.
    open spec fn validation_ready(&self) -> bool {
        forall|i: int|
            0 <= i < self.transactions@.len() && first_failure(
                self.transactions@.map_values(|t: Transaction| t.spec_failure()).take(i),
            ) is None ==> (#[trigger] self.transactions@[i]).validation_ready()
    }

    open spec fn validation_failure(&self) -> Option<Failure> {
        self.spec_failure()
    }

    fn validate(&self) -> (out: PrimitiveResult<()>) {
        let ghost txs = self.transactions@.map_values(|t: Transaction| t.spec_failure());
        let ghost reports = self.work_reports@.map_values(|w: WorkReport| w.spec_failure());
        let ghost gs = self.guarantees@.map_values(|g: Guarantee| g.spec_failure());
        assert(self.validation_failure() == self.spec_failure());
        // Validate all transactions
        let mut i: usize = 0;
        while i < self.transactions.len()
            invariant
                i <= self.transactions@.len(),
                self.validation_ready(),
                txs == self.transactions@.map_values(|t: Transaction| t.spec_failure()),
                first_failure(txs.take(i as int)) is None,
            decreases self.transactions@.len() - i,
        {
            proof {
                lemma_first_failure_step(txs, i as int);
            }
            assert(self.transactions@[i as int].validation_ready());
            assert(self.transactions@[i as int].validation_failure()
                == self.transactions@[i as int].spec_failure());
            assert(txs[i as int] == self.transactions@[i as int].spec_failure());
            match self.transactions[i].validate() {
                Ok(()) => {},
                Err(e) => {
                    proof {
                        lemma_first_failure_prefix(txs, i + 1);
                    }
                    return Err(item_error("transaction", i, &e));
                },
            }
            i = i + 1;
        }
        assert(txs.take(txs.len() as int) =~= txs);
        // Validate work reports
        let mut j: usize = 0;
        while j < self.work_reports.len()
            invariant
                j <= self.work_reports@.len(),
                reports == self.work_reports@.map_values(|w: WorkReport| w.spec_failure()),
                first_failure(reports.take(j as int)) is None,
                txs == self.transactions@.map_values(|t: Transaction| t.spec_failure()),
                first_failure(txs) is None,
            decreases self.work_reports@.len() - j,
        {
            proof {
                lemma_first_failure_step(reports, j as int);
            }
            assert(self.work_reports@[j as int].validation_failure()
                == self.work_reports@[j as int].spec_failure());
            assert(reports[j as int] == self.work_reports@[j as int].spec_failure());
            match self.work_reports[j].validate() {
                Ok(()) => {},
                Err(e) => {
                    proof {
                        lemma_first_failure_prefix(reports, j + 1);
                    }
                    return Err(item_error("work report", j, &e));
                },
            }
            j = j + 1;
        }
        assert(reports.take(reports.len() as int) =~= reports);
        // Validate guarantees
        let mut k: usize = 0;
        while k < self.guarantees.len()
            invariant
                k <= self.guarantees@.len(),
                gs == self.guarantees@.map_values(|g: Guarantee| g.spec_failure()),
                first_failure(gs.take(k as int)) is None,
                txs == self.transactions@.map_values(|t: Transaction| t.spec_failure()),
                first_failure(txs) is None,
                reports == self.work_reports@.map_values(|w: WorkReport| w.spec_failure()),
                first_failure(reports) is None,
            decreases self.guarantees@.len() - k,
        {
            proof {
                lemma_first_failure_step(gs, k as int);
            }
            assert(self.guarantees@[k as int].validation_failure()
                == self.guarantees@[k as int].spec_failure());
            assert(gs[k as int] == self.guarantees@[k as int].spec_failure());
            match self.guarantees[k].validate() {
                Ok(()) => {},
                Err(e) => {
                    proof {
                        lemma_first_failure_prefix(gs, k + 1);
                    }
                    return Err(item_error("guarantee", k, &e));
                },
            }
            k = k + 1;
        }
        assert(gs.take(gs.len() as int) =~= gs);
        Ok(())
    }
}

impl Hashable for BlockBody {
    open spec fn hash_ready(&self) -> bool {
        self.encodable()
    }

    open spec fn hashed_bytes(&self) -> Seq<u8> {
        self.encoding()
    }

    fn hash(&self) -> (out: crate::types::Hash) {
        let hasher = Blake3Hasher::new();
        let bytes = self.encode();
        hasher.hash(bytes.as_slice())
    }
}

/// Availability data for erasure coding
#[derive(Debug, Clone, PartialEq, Eq)]
pub struct AvailabilityData {
    /// Erasure coded chunks
    pub chunks: Vec<AvailabilityChunk>,
}

impl AvailabilityData {
    /// Create new empty availability data
    pub fn new() -> (out: Self)
        ensures
            out.chunks@.len() == 0,
    {
        Self { chunks: Vec::new() }
    }
}

impl Default for AvailabilityData {
    fn default() -> (out: Self)
        ensures
            out.chunks@.len() == 0,
    {
        Self::new()
    }
}

impl Encode for AvailabilityData {
    open spec fn encodable(&self) -> bool {
        self.chunks.encodable()
    }

    open spec fn encoding(&self) -> Seq<u8> {
        self.chunks.encoding()
    }

    fn encode_to(&self, dest: &mut Vec<u8>) {
        self.chunks.encode_to(dest);
    }
}

impl AvailabilityData {
    /// The one field, which is all the encoding holds.
    pub closed spec fn field_tuple(&self) -> Vec<AvailabilityChunk> {
        self.chunks
    }
}

impl Decode for AvailabilityData {
    proof fn lemma_prefix_unique(a: Self, b: Self, s: Seq<u8>) {
        <Vec<AvailabilityChunk> as Decode>::lemma_prefix_unique(a.field_tuple(), b.field_tuple(), s);
    }

    open spec fn decode_error(bytes: Seq<u8>, pos: int) -> Seq<Seq<char>> {
        step_error(field_step::<Vec<AvailabilityChunk>>(bytes, pos, "Could not decode `AvailabilityData::chunks`"@))
    }

    fn decode_at(bytes: &[u8], pos: usize) -> (out: Result<(Self, usize), DecodeError>) {
        let ghost r0 = field_step::<Vec<AvailabilityChunk>>(bytes@, pos as int, "Could not decode `AvailabilityData::chunks`"@);
        let r = decode_field::<Vec<AvailabilityChunk>>(bytes, pos, "Could not decode `AvailabilityData::chunks`");
        match r {
            Ok((t, end)) => {
                let chunks = t;
                let v = AvailabilityData { chunks };
                assert(v.field_tuple() == t);
                Ok((v, end))
            },
            Err(e) => {
                assert forall|v: AvailabilityData| v.encodable() implies !starts_with(
                    bytes@.skip(pos as int),
                    #[trigger] v.encoding(),
                ) by {
                    assert(v.field_tuple().encoding() == v.encoding());
                    assert(v.field_tuple().encodable());
                }
                Err(e)
            },
        }
    }

    open spec fn width() -> Option<nat> {
        None
    }

    fn fixed_width() -> (out: Option<usize>) {
        None
    }
}

/// A single chunk of availability data
#[derive(Debug, Clone, PartialEq, Eq)]
pub struct AvailabilityChunk {
    /// Chunk index
    pub index: u32,
    /// Chunk data
    pub data: Vec<u8>,
    /// Proof for this chunk
    pub proof: Vec<u8>,
}

impl Encode for AvailabilityChunk {
    open spec fn encodable(&self) -> bool {
        self.data.encodable() && self.proof.encodable()
    }

    open spec fn encoding(&self) -> Seq<u8> {
        self.index.encoding() + self.data.encoding() + self.proof.encoding()
    }

    fn encode_to(&self, dest: &mut Vec<u8>) {
        self.index.encode_to(dest);
        self.data.encode_to(dest);
        self.proof.encode_to(dest);
        assert(dest@ =~= old(dest)@ + self.encoding());
    }
}

/// The fields of a [`AvailabilityChunk`] in the order of its encoding, nested in pairs.
pub type AvailabilityChunkFields = ((u32, Vec<u8>), Vec<u8>);

impl AvailabilityChunk {
    /// The fields as a [`AvailabilityChunkFields`].
    pub closed spec fn field_tuple(&self) -> AvailabilityChunkFields {
        ((self.index, self.data), self.proof)
    }
}

impl Decode for AvailabilityChunk {
    proof fn lemma_prefix_unique(a: Self, b: Self, s: Seq<u8>) {
        <AvailabilityChunkFields as Decode>::lemma_prefix_unique(a.field_tuple(), b.field_tuple(), s);
    }

    open spec fn decode_error(bytes: Seq<u8>, pos: int) -> Seq<Seq<char>> {
        step_error(extend_step::<Vec<u8>>(bytes, extend_step::<Vec<u8>>(bytes, field_step::<u32>(bytes, pos, "Could not decode `AvailabilityChunk::index`"@), "Could not decode `AvailabilityChunk::data`"@), "Could not decode `AvailabilityChunk::proof`"@))
    }

    fn decode_at(bytes: &[u8], pos: usize) -> (out: Result<(Self, usize), DecodeError>) {
        let ghost r0 = field_step::<u32>(bytes@, pos as int, "Could not decode `AvailabilityChunk::index`"@);
        let r = decode_field::<u32>(bytes, pos, "Could not decode `AvailabilityChunk::index`");
        let ghost r1 = extend_step::<Vec<u8>>(bytes@, r0, "Could not decode `AvailabilityChunk::data`"@);
        let r = decode_extend::<u32, Vec<u8>>(bytes, pos, r, Ghost(r0), "Could not decode `AvailabilityChunk::data`");
        let ghost r2 = extend_step::<Vec<u8>>(bytes@, r1, "Could not decode `AvailabilityChunk::proof`"@);
        let r = decode_extend::<(u32, Vec<u8>), Vec<u8>>(bytes, pos, r, Ghost(r1), "Could not decode `AvailabilityChunk::proof`");
        match r {
            Ok((t, end)) => {
                let ((index, data), proof) = t;
                let v = AvailabilityChunk { index, data, proof };
                assert(v.field_tuple() == t);
                Ok((v, end))
            },
            Err(e) => {
                assert forall|v: AvailabilityChunk| v.encodable() implies !starts_with(
                    bytes@.skip(pos as int),
                    #[trigger] v.encoding(),
                ) by {
                    assert(v.field_tuple().encoding() == v.encoding());
                    assert(v.field_tuple().encodable());
                }
                Err(e)
            },
        }
    }

    open spec fn width() -> Option<nat> {
        None
    }

    fn fixed_width() -> (out: Option<usize>) {
        None
    }
}

/// Work report from a core
#[derive(Debug, Clone, PartialEq, Eq)]
pub struct WorkReport {
    /// Core index that produced this report
    pub core_index: u16,
    /// Work package hash
    pub package_hash: crate::types::Hash,
    /// Result of work execution
    pub result: WorkResult,
    /// Context for work execution
    pub context: WorkContext,
    /// Authorizer signature
    pub authorizer_signature: Signature,
}

impl WorkReport {
    /// The first rule that the report breaks, if any: its core index must be
    /// below the number of cores, and its result valid.
    pub open spec fn spec_failure(&self) -> Option<Failure> {
        if self.core_index >= 1023 {
            block_fail("Core index exceeds maximum"@)
        } else {
            self.result.spec_failure()
        }
    }

    /// Create a new work report
    pub fn new(
        core_index: u16,
        package_hash: crate::types::Hash,
        result: WorkResult,
        context: WorkContext,
        authorizer_signature: Signature,
    ) -> (out: Self)
        ensures
            out == (WorkReport { core_index, package_hash, result, context, authorizer_signature }),
    {
        Self { core_index, package_hash, result, context, authorizer_signature }
    }
}

impl Validate for WorkReport {
    open spec fn validation_ready(&self) -> bool {
        true
    }

    open spec fn validation_failure(&self) -> Option<Failure> {
        self.spec_failure()
    }

    fn validate(&self) -> (out: PrimitiveResult<()>) {
        assert(self.validation_failure() == self.spec_failure());
        assert(self.result.validation_failure() == self.result.spec_failure());
        // Validate core index is within bounds
        if self.core_index >= crate::constants::MAX_CORES as u16 {
            return Err(invalid_block("Core index exceeds maximum"));
        }
        // Validate result
        self.result.validate()
    }
}

impl Encode for WorkReport {
    open spec fn encodable(&self) -> bool {
        self.result.encodable()
    }

    open spec fn encoding(&self) -> Seq<u8> {
        self.core_index.encoding() + self.package_hash.encoding() + self.result.encoding()
            + self.context.encoding() + self.authorizer_signature.encoding()
    }

    fn encode_to(&self, dest: &mut Vec<u8>) {
        self.core_index.encode_to(dest);
        self.package_hash.encode_to(dest);
        self.result.encode_to(dest);
        self.context.encode_to(dest);
        self.authorizer_signature.encode_to(dest);
        assert(dest@ =~= old(dest)@ + self.encoding());
    }
}

/// The fields of a [`WorkReport`] in the order of its encoding, nested in pairs.
pub type WorkReportFields = ((((u16, crate::types::Hash), WorkResult), WorkContext), Signature);

impl WorkReport {
    /// The fields as a [`WorkReportFields`].
    pub closed spec fn field_tuple(&self) -> WorkReportFields {
        ((((self.core_index, self.package_hash), self.result), self.context), self.authorizer_signature)
    }
}

impl Decode for WorkReport {
    proof fn lemma_prefix_unique(a: Self, b: Self, s: Seq<u8>) {
        <WorkReportFields as Decode>::lemma_prefix_unique(a.field_tuple(), b.field_tuple(), s);
    }

    open spec fn decode_error(bytes: Seq<u8>, pos: int) -> Seq<Seq<char>> {
        step_error(extend_step::<Signature>(bytes, extend_step::<WorkContext>(bytes, extend_step::<WorkResult>(bytes, extend_step::<crate::types::Hash>(bytes, field_step::<u16>(bytes, pos, "Could not decode `WorkReport::core_index`"@), "Could not decode `WorkReport::package_hash`"@), "Could not decode `WorkReport::result`"@), "Could not decode `WorkReport::context`"@), "Could not decode `WorkReport::authorizer_signature`"@))
    }

    fn decode_at(bytes: &[u8], pos: usize) -> (out: Result<(Self, usize), DecodeError>) {
        let ghost r0 = field_step::<u16>(bytes@, pos as int, "Could not decode `WorkReport::core_index`"@);
        let r = decode_field::<u16>(bytes, pos, "Could not decode `WorkReport::core_index`");
        let ghost r1 = extend_step::<crate::types::Hash>(bytes@, r0, "Could not decode `WorkReport::package_hash`"@);
        let r = decode_extend::<u16, crate::types::Hash>(bytes, pos, r, Ghost(r0), "Could not decode `WorkReport::package_hash`");
        let ghost r2 = extend_step::<WorkResult>(bytes@, r1, "Could not decode `WorkReport::result`"@);
        let r = decode_extend::<(u16, crate::types::Hash), WorkResult>(bytes, pos, r, Ghost(r1), "Could not decode `WorkReport::result`");
        let ghost r3 = extend_step::<WorkContext>(bytes@, r2, "Could not decode `WorkReport::context`"@);
        let r = decode_extend::<((u16, crate::types::Hash), WorkResult), WorkContext>(bytes, pos, r, Ghost(r2), "Could not decode `WorkReport::context`");
        let ghost r4 = extend_step::<Signature>(bytes@, r3, "Could not decode `WorkReport::authorizer_signature`"@);
        let r = decode_extend::<(((u16, crate::types::Hash), WorkResult), WorkContext), Signature>(bytes, pos, r, Ghost(r3), "Could not decode `WorkReport::authorizer_signature`");
        match r {
            Ok((t, end)) => {
                let ((((core_index, package_hash), result), context), authorizer_signature) = t;
                let v = WorkReport { core_index, package_hash, result, context, authorizer_signature };
                assert(v.field_tuple() == t);
                Ok((v, end))
            },
            Err(e) => {
                assert forall|v: WorkReport| v.encodable() implies !starts_with(
                    bytes@.skip(pos as int),
                    #[trigger] v.encoding(),
                ) by {
                    assert(v.field_tuple().encoding() == v.encoding());
                    assert(v.field_tuple().encodable());
                }
                Err(e)
            },
        }
    }

    open spec fn width() -> Option<nat> {
        None
    }

    fn fixed_width() -> (out: Option<usize>) {
        None
    }
}

/// Result of work execution
#[derive(Debug, Clone, PartialEq, Eq)]
pub struct WorkResult {
    /// Service that executed the work
    pub service_id: ServiceId,
    /// Payload hash
    pub payload_hash: crate::types::Hash,
    /// Gas used
    pub gas_used: Gas,
    /// Result data
    pub result_data: Vec<u8>,
}

impl WorkResult {
    /// The first rule that the result breaks, if any: its data must not
    /// exceed the maximum accumulation size.
    pub open spec fn spec_failure(&self) -> Option<Failure> {
        if self.result_data@.len() > 1024 * 1024 {
            fail(ErrorKind::SizeLimit, "Work result data exceeds maximum size"@)
        } else {
            None
        }
    }
}

impl Validate for WorkResult {
    open spec fn validation_ready(&self) -> bool {
        true
    }

    open spec fn validation_failure(&self) -> Option<Failure> {
        self.spec_failure()
    }

    fn validate(&self) -> (out: PrimitiveResult<()>) {
        assert(self.validation_failure() == self.spec_failure());
        // Check result data size
        if self.result_data.len() > crate::constants::MAX_ACCUMULATION_SIZE as usize {
            return Err(size_limit("Work result data exceeds maximum size"));
        }
        Ok(())
    }
}

impl Encode for WorkResult {
    open spec fn encodable(&self) -> bool {
        self.result_data.encodable()
    }

    open spec fn encoding(&self) -> Seq<u8> {
        self.service_id.encoding() + self.payload_hash.encoding() + self.gas_used.encoding()
            + self.result_data.encoding()
    }

    fn encode_to(&self, dest: &mut Vec<u8>) {
        self.service_id.encode_to(dest);
        self.payload_hash.encode_to(dest);
        self.gas_used.encode_to(dest);
        self.result_data.encode_to(dest);
        assert(dest@ =~= old(dest)@ + self.encoding());
    }
}

/// The fields of a [`WorkResult`] in the order of its encoding, nested in pairs.
pub type WorkResultFields = (((ServiceId, crate::types::Hash), Gas), Vec<u8>);

impl WorkResult {
    /// The fields as a [`WorkResultFields`].
    pub closed spec fn field_tuple(&self) -> WorkResultFields {
        (((self.service_id, self.payload_hash), self.gas_used), self.result_data)
    }
}

impl Decode for WorkResult {
    proof fn lemma_prefix_unique(a: Self, b: Self, s: Seq<u8>) {
        <WorkResultFields as Decode>::lemma_prefix_unique(a.field_tuple(), b.field_tuple(), s);
    }

    open spec fn decode_error(bytes: Seq<u8>, pos: int) -> Seq<Seq<char>> {
        step_error(extend_step::<Vec<u8>>(bytes, extend_step::<Gas>(bytes, extend_step::<crate::types::Hash>(bytes, field_step::<ServiceId>(bytes, pos, "Could not decode `WorkResult::service_id`"@), "Could not decode `WorkResult::payload_hash`"@), "Could not decode `WorkResult::gas_used`"@), "Could not decode `WorkResult::result_data`"@))
    }

    fn decode_at(bytes: &[u8], pos: usize) -> (out: Result<(Self, usize), DecodeError>) {
        let ghost r0 = field_step::<ServiceId>(bytes@, pos as int, "Could not decode `WorkResult::service_id`"@);
        let r = decode_field::<ServiceId>(bytes, pos, "Could not decode `WorkResult::service_id`");
        let ghost r1 = extend_step::<crate::types::Hash>(bytes@, r0, "Could not decode `WorkResult::payload_hash`"@);
        let r = decode_extend::<ServiceId, crate::types::Hash>(bytes, pos, r, Ghost(r0), "Could not decode `WorkResult::payload_hash`");
        let ghost r2 = extend_step::<Gas>(bytes@, r1, "Could not decode `WorkResult::gas_used`"@);
        let r = decode_extend::<(ServiceId, crate::types::Hash), Gas>(bytes, pos, r, Ghost(r1), "Could not decode `WorkResult::gas_used`");
        let ghost r3 = extend_step::<Vec<u8>>(bytes@, r2, "Could not decode `WorkResult::result_data`"@);
        let r = decode_extend::<((ServiceId, crate::types::Hash), Gas), Vec<u8>>(bytes, pos, r, Ghost(r2), "Could not decode `WorkResult::result_data`");
        match r {
            Ok((t, end)) => {
                let (((service_id, payload_hash), gas_used), result_data) = t;
                let v = WorkResult { service_id, payload_hash, gas_used, result_data };
                assert(v.field_tuple() == t);
                Ok((v, end))
            },
            Err(e) => {
                assert forall|v: WorkResult| v.encodable() implies !starts_with(
                    bytes@.skip(pos as int),
                    #[trigger] v.encoding(),
                ) by {
                    assert(v.field_tuple().encoding() == v.encoding());
                    assert(v.field_tuple().encodable());
                }
                Err(e)
            },
        }
    }

    open spec fn width() -> Option<nat> {
        None
    }

    fn fixed_width() -> (out: Option<usize>) {
        None
    }
}

/// Context for work execution
#[derive(Debug, Clone, PartialEq, Eq)]
pub struct WorkContext {
    /// Anchor block hash
    pub anchor: crate::types::Hash,
    /// State root at execution
    pub state_root: crate::types::Hash,
    /// Lookup anchor
    pub lookup_anchor: crate::types::Hash,
    /// Prerequisite work package
    pub prerequisite: Option<crate::types::Hash>,
}

impl Encode for WorkContext {
    open spec fn encodable(&self) -> bool {
        true
    }

    open spec fn encoding(&self) -> Seq<u8> {
        self.anchor.encoding() + self.state_root.encoding() + self.lookup_anchor.encoding()
            + self.prerequisite.encoding()
    }

    fn encode_to(&self, dest: &mut Vec<u8>) {
        self.anchor.encode_to(dest);
        self.state_root.encode_to(dest);
        self.lookup_anchor.encode_to(dest);
        self.prerequisite.encode_to(dest);
        assert(dest@ =~= old(dest)@ + self.encoding());
    }
}

/// The fields of a [`WorkContext`] in the order of its encoding, nested in pairs.
pub type WorkContextFields = (((crate::types::Hash, crate::types::Hash), crate::types::Hash), Option<crate::types::Hash>);

impl WorkContext {
    /// The fields as a [`WorkContextFields`].
    pub closed spec fn field_tuple(&self) -> WorkContextFields {
        (((self.anchor, self.state_root), self.lookup_anchor), self.prerequisite)
    }
}

impl Decode for WorkContext {
    proof fn lemma_prefix_unique(a: Self, b: Self, s: Seq<u8>) {
        <WorkContextFields as Decode>::lemma_prefix_unique(a.field_tuple(), b.field_tuple(), s);
    }

    open spec fn decode_error(bytes: Seq<u8>, pos: int) -> Seq<Seq<char>> {
        step_error(extend_step::<Option<crate::types::Hash>>(bytes, extend_step::<crate::types::Hash>(bytes, extend_step::<crate::types::Hash>(bytes, field_step::<crate::types::Hash>(bytes, pos, "Could not decode `WorkContext::anchor`"@), "Could not decode `WorkContext::state_root`"@), "Could not decode `WorkContext::lookup_anchor`"@), "Could not decode `WorkContext::prerequisite`"@))
    }

    fn decode_at(bytes: &[u8], pos: usize) -> (out: Result<(Self, usize), DecodeError>) {
        let ghost r0 = field_step::<crate::types::Hash>(bytes@, pos as int, "Could not decode `WorkContext::anchor`"@);
        let r = decode_field::<crate::types::Hash>(bytes, pos, "Could not decode `WorkContext::anchor`");
        let ghost r1 = extend_step::<crate::types::Hash>(bytes@, r0, "Could not decode `WorkContext::state_root`"@);
        let r = decode_extend::<crate::types::Hash, crate::types::Hash>(bytes, pos, r, Ghost(r0), "Could not decode `WorkContext::state_root`");
        let ghost r2 = extend_step::<crate::types::Hash>(bytes@, r1, "Could not decode `WorkContext::lookup_anchor`"@);
        let r = decode_extend::<(crate::types::Hash, crate::types::Hash), crate::types::Hash>(bytes, pos, r, Ghost(r1), "Could not decode `WorkContext::lookup_anchor`");
        let ghost r3 = extend_step::<Option<crate::types::Hash>>(bytes@, r2, "Could not decode `WorkContext::prerequisite`"@);
        let r = decode_extend::<((crate::types::Hash, crate::types::Hash), crate::types::Hash), Option<crate::types::Hash>>(bytes, pos, r, Ghost(r2), "Could not decode `WorkContext::prerequisite`");
        match r {
            Ok((t, end)) => {
                let (((anchor, state_root), lookup_anchor), prerequisite) = t;
                let v = WorkContext { anchor, state_root, lookup_anchor, prerequisite };
                assert(v.field_tuple() == t);
                Ok((v, end))
            },
            Err(e) => {
                assert forall|v: WorkContext| v.encodable() implies !starts_with(
                    bytes@.skip(pos as int),
                    #[trigger] v.encoding(),
                ) by {
                    assert(v.field_tuple().encoding() == v.encoding());
                    assert(v.field_tuple().encodable());
                }
                Err(e)
            },
        }
    }

    open spec fn width() -> Option<nat> {
        None
    }

    fn fixed_width() -> (out: Option<usize>) {
        None
    }
}

impl Canonical for WorkContext {
    proof fn lemma_encoding_injective(a: Self, b: Self) {
        <WorkContextFields as Canonical>::lemma_encoding_injective(a.field_tuple(), b.field_tuple());
    }
}

/// Guarantee for parachain block
#[derive(Debug, Clone, PartialEq, Eq)]
pub struct Guarantee {
    /// Work report being guaranteed
    pub work_report: crate::types::Hash,
    /// Timeslot
    pub timeslot: TimeSlot,
    /// Guarantor signatures
    pub signatures: Vec<(AccountId, Signature)>,
}

impl Guarantee {
    /// Whether two of the signatures come from the same signer.
    pub open spec fn has_duplicate_signer(&self) -> bool {
        exists|i: int, j: int|
            0 <= i < j < self.signatures@.len() && (#[trigger] self.signatures@[i]).0.0@
                == (#[trigger] self.signatures@[j]).0.0@
    }

    /// The first rule that the guarantee breaks, if any: it needs at least
    /// one signature, and no signer twice.
    pub open spec fn spec_failure(&self) -> Option<Failure> {
        if self.signatures@.len() == 0 {
            block_fail("Guarantee must have at least one signature"@)
        } else if self.has_duplicate_signer() {
            block_fail("Duplicate signer in guarantee"@)
        } else {
            None
        }
    }
}

impl Validate for Guarantee {
    open spec fn validation_ready(&self) -> bool {
        true
    }

    open spec fn validation_failure(&self) -> Option<Failure> {
        self.spec_failure()
    }

    /// Checks the guarantee's rules. Duplicate signers are found by
    /// comparing each signer with every earlier one, which reports the same
    /// first repeated signer as inserting the signers one by one into a hash
    /// set would. The scan stands in place of such a set so that the rule is
    /// stated and proved over the sequence of signers itself.
    fn validate(&self) -> (out: PrimitiveResult<()>) {
        assert(self.validation_failure() == self.spec_failure());
        // Check minimum number of signatures
        if self.signatures.len() == 0 {
            assert(self.spec_failure() == block_fail("Guarantee must have at least one signature"@));
            return Err(invalid_block("Guarantee must have at least one signature"));
        }
        // Check for duplicate signers
        let mut j: usize = 0;
        while j < self.signatures.len()
            invariant
                j <= self.signatures@.len(),
                forall|a: int, b: int|
                    0 <= a < b < j ==> (#[trigger] self.signatures@[a]).0.0@
                        != (#[trigger] self.signatures@[b]).0.0@,
            decreases self.signatures@.len() - j,
        {
            let mut i: usize = 0;
            while i < j
                invariant
                    i <= j < self.signatures@.len(),
                    forall|a: int| 0 <= a < i ==> (#[trigger] self.signatures@[a]).0.0@
                        != self.signatures@[j as int].0.0@,
                decreases j - i,
            {
                if crate::utils::bytes_equal(self.signatures[i].0.as_bytes(), self.signatures[j].0.as_bytes()) {
                    return Err(invalid_block("Duplicate signer in guarantee"));
                }
                i = i + 1;
            }
            j = j + 1;
        }
        Ok(())
    }
}

impl Encode for Guarantee {
    open spec fn encodable(&self) -> bool {
        self.signatures.encodable()
    }

    open spec fn encoding(&self) -> Seq<u8> {
        self.work_report.encoding() + self.timeslot.encoding() + self.signatures.encoding()
    }

    fn encode_to(&self, dest: &mut Vec<u8>) {
        self.work_report.encode_to(dest);
        self.timeslot.encode_to(dest);
        self.signatures.encode_to(dest);
        assert(dest@ =~= old(dest)@ + self.encoding());
    }
}

/// The fields of a [`Guarantee`] in the order of its encoding, nested in pairs.
pub type GuaranteeFields = ((crate::types::Hash, TimeSlot), Vec<(AccountId, Signature)>);

impl Guarantee {
    /// The fields as a [`GuaranteeFields`].
    pub closed spec fn field_tuple(&self) -> GuaranteeFields {
        ((self.work_report, self.timeslot), self.signatures)
    }
}

impl Decode for Guarantee {
    proof fn lemma_prefix_unique(a: Self, b: Self, s: Seq<u8>) {
        <GuaranteeFields as Decode>::lemma_prefix_unique(a.field_tuple(), b.field_tuple(), s);
    }

    open spec fn decode_error(bytes: Seq<u8>, pos: int) -> Seq<Seq<char>> {
        step_error(extend_step::<Vec<(AccountId, Signature)>>(bytes, extend_step::<TimeSlot>(bytes, field_step::<crate::types::Hash>(bytes, pos, "Could not decode `Guarantee::work_report`"@), "Could not decode `Guarantee::timeslot`"@), "Could not decode `Guarantee::signatures`"@))
    }

    fn decode_at(bytes: &[u8], pos: usize) -> (out: Result<(Self, usize), DecodeError>) {
        let ghost r0 = field_step::<crate::types::Hash>(bytes@, pos as int, "Could not decode `Guarantee::work_report`"@);
        let r = decode_field::<crate::types::Hash>(bytes, pos, "Could not decode `Guarantee::work_report`");
        let ghost r1 = extend_step::<TimeSlot>(bytes@, r0, "Could not decode `Guarantee::timeslot`"@);
        let r = decode_extend::<crate::types::Hash, TimeSlot>(bytes, pos, r, Ghost(r0), "Could not decode `Guarantee::timeslot`");
        let ghost r2 = extend_step::<Vec<(AccountId, Signature)>>(bytes@, r1, "Could not decode `Guarantee::signatures`"@);
        let r = decode_extend::<(crate::types::Hash, TimeSlot), Vec<(AccountId, Signature)>>(bytes, pos, r, Ghost(r1), "Could not decode `Guarantee::signatures`");
        match r {
            Ok((t, end)) => {
                let ((work_report, timeslot), signatures) = t;
                let v = Guarantee { work_report, timeslot, signatures };
                assert(v.field_tuple() == t);
                Ok((v, end))
            },
            Err(e) => {
                assert forall|v: Guarantee| v.encodable() implies !starts_with(
                    bytes@.skip(pos as int),
                    #[trigger] v.encoding(),
                ) by {
                    assert(v.field_tuple().encoding() == v.encoding());
                    assert(v.field_tuple().encodable());
                }
                Err(e)
            },
        }
    }

    open spec fn width() -> Option<nat> {
        None
    }

    fn fixed_width() -> (out: Option<usize>) {
        None
    }
}

/// Preimage data for services
#[derive(Debug, Clone, PartialEq, Eq)]
pub struct Preimage {
    /// Hash of the preimage
    pub hash: crate::types::Hash,
    /// Preimage data
    pub data: Vec<u8>,
}

impl Preimage {
    /// Whether the stored hash is the digest of the data.
    pub open spec fn spec_is_valid(&self) -> bool {
        self.hash.0@ == blake3_digest(self.data@)
    }

    /// Create a new preimage. Its hash is the digest of the data, so every
    /// preimage made here verifies.
    pub fn new(data: Vec<u8>) -> (out: Self)
        ensures
            out.data == data,
            out.hash.0@ == blake3_digest(data@),
            out.spec_is_valid(),
    {
        let hasher = Blake3Hasher::new();
        let hash = hasher.hash(data.as_slice());
        Self { hash, data }
    }

    /// Verify that the hash matches the data
    pub fn verify(&self) -> (out: bool)
        ensures
            out == self.spec_is_valid(),
    {
        let hasher = Blake3Hasher::new();
        hasher.hash(self.data.as_slice()) == self.hash
    }
}

impl Encode for Preimage {
    open spec fn encodable(&self) -> bool {
        self.data.encodable()
    }

    open spec fn encoding(&self) -> Seq<u8> {
        self.hash.encoding() + self.data.encoding()
    }

    fn encode_to(&self, dest: &mut Vec<u8>) {
        self.hash.encode_to(dest);
        self.data.encode_to(dest);
        assert(dest@ =~= old(dest)@ + self.encoding());
    }
}

/// The fields of a [`Preimage`] in the order of its encoding, nested in pairs.
pub type PreimageFields = (crate::types::Hash, Vec<u8>);

impl Preimage {
    /// The fields as a [`PreimageFields`].
    pub closed spec fn field_tuple(&self) -> PreimageFields {
        (self.hash, self.data)
    }
}

impl Decode for Preimage {
    proof fn lemma_prefix_unique(a: Self, b: Self, s: Seq<u8>) {
        <PreimageFields as Decode>::lemma_prefix_unique(a.field_tuple(), b.field_tuple(), s);
    }

    open spec fn decode_error(bytes: Seq<u8>, pos: int) -> Seq<Seq<char>> {
        step_error(extend_step::<Vec<u8>>(bytes, field_step::<crate::types::Hash>(bytes, pos, "Could not decode `Preimage::hash`"@), "Could not decode `Preimage::data`"@))
    }

    fn decode_at(bytes: &[u8], pos: usize) -> (out: Result<(Self, usize), DecodeError>) {
        let ghost r0 = field_step::<crate::types::Hash>(bytes@, pos as int, "Could not decode `Preimage::hash`"@);
        let r = decode_field::<crate::types::Hash>(bytes, pos, "Could not decode `Preimage::hash`");
        let ghost r1 = extend_step::<Vec<u8>>(bytes@, r0, "Could not decode `Preimage::data`"@);
        let r = decode_extend::<crate::types::Hash, Vec<u8>>(bytes, pos, r, Ghost(r0), "Could not decode `Preimage::data`");
        match r {
            Ok((t, end)) => {
                let (hash, data) = t;
                let v = Preimage { hash, data };
                assert(v.field_tuple() == t);
                Ok((v, end))
            },
            Err(e) => {
                assert forall|v: Preimage| v.encodable() implies !starts_with(
                    bytes@.skip(pos as int),
                    #[trigger] v.encoding(),
                ) by {
                    assert(v.field_tuple().encoding() == v.encoding());
                    assert(v.field_tuple().encodable());
                }
                Err(e)
            },
        }
    }

    open spec fn width() -> Option<nat> {
        None
    }

    fn fixed_width() -> (out: Option<usize>) {
        None
    }
}

/// The weight of a body is the sum of the weights of its transactions,
/// plus 1000 per work report, 500 per guarantee and 1 per byte of preimage
/// data.
pub proof fn body_weight_parts(body: BlockBody)
    ensures
        body.spec_weight() == total_tx_weight(body.transactions@) + 1000 * body.work_reports@.len()
            + 500 * body.guarantees@.len() + total_preimage_len(body.preimages@),
{
}

/// Adding an item to a body adds its weight: of two bodies that differ by
/// one item, the larger weighs more by the weight of the transaction, by
/// 1000 for a work report, by 500 for a guarantee, or by the length of the
/// data of a preimage; an empty body weighs nothing.
pub proof fn body_weight_grows_by_item(a: BlockBody, b: BlockBody, tx: Transaction, p: Preimage)
    ensures
        a.transactions@.len() == 0 && a.work_reports@.len() == 0 && a.guarantees@.len() == 0
            && a.preimages@.len() == 0 ==> a.spec_weight() == 0,
        b.transactions@ == a.transactions@.push(tx) && b.work_reports@.len() == a.work_reports@.len()
            && b.guarantees@.len() == a.guarantees@.len() && b.preimages@ == a.preimages@
            ==> b.spec_weight() == a.spec_weight() + tx.spec_weight(),
        b.transactions@ == a.transactions@ && b.work_reports@.len() == a.work_reports@.len() + 1
            && b.guarantees@.len() == a.guarantees@.len() && b.preimages@ == a.preimages@
            ==> b.spec_weight() == a.spec_weight() + 1000,
        b.transactions@ == a.transactions@ && b.work_reports@.len() == a.work_reports@.len()
            && b.guarantees@.len() == a.guarantees@.len() + 1 && b.preimages@ == a.preimages@
            ==> b.spec_weight() == a.spec_weight() + 500,
        b.transactions@ == a.transactions@ && b.work_reports@.len() == a.work_reports@.len()
            && b.guarantees@.len() == a.guarantees@.len() && b.preimages@ == a.preimages@.push(p)
            ==> b.spec_weight() == a.spec_weight() + p.data@.len(),
{
    assert(a.transactions@.push(tx).drop_last() =~= a.transactions@);
    assert(a.preimages@.push(p).drop_last() =~= a.preimages@);
}

/// The block size limit is 4 MiB: a block whose header passes its checks,
/// whose body passes its checks and whose extrinsics root is the hash of the
/// body validates exactly when its encoded size is at most 4 * 1024 * 1024
/// bytes, and is refused with the size error otherwise.
pub proof fn block_size_limit_is_four_mebibytes(block: Block)
    requires
        block.header.basic_failure() is None,
        block.body.spec_failure() is None,
        block.header.extrinsics_root.0@ == blake3_digest(block.body.encoding()),
    ensures
        block.spec_size() <= 4 * 1024 * 1024 ==> block.validation_failure() is None,
        block.spec_size() > 4 * 1024 * 1024 ==> block.validation_failure() == Some((ErrorKind::SizeLimit,
            "Block exceeds maximum size limit"@)),
{
}

} // verus!
