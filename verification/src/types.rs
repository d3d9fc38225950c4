//! # Core Types for JAM Protocol
//!
//! This module defines the fundamental types used throughout the JAM protocol.

use vstd::prelude::*;
use vstd::std_specs::cmp::PartialEqSpecImpl;
use vstd::std_specs::convert::FromSpecImpl;
use vstd::std_specs::ops::{AddSpecImpl, MulSpecImpl};

use crate::utils::all_zero;
use crate::utils::codec::{Canonical, lemma_same_length_prefixes, lemma_starts_with_tag, starts_with, Decode, Encode, decode_field, decode_extend, scale_u8, DecodeError, field_step, extend_step, step_error, error_from, error_desc, chained};

verus! {

/// Represents public key bytes as unique account identifier
#[derive(Debug, Clone, Copy, PartialEq, Eq, Hash)]
pub struct AccountId(pub [u8; 32]);

impl From<[u8; 32]> for AccountId {
    fn from(value: [u8; 32]) -> (out: Self) {
        AccountId(value)
    }
}

impl FromSpecImpl<[u8; 32]> for AccountId {
    open spec fn obeys_from_spec() -> bool {
        true
    }

    open spec fn from_spec(v: [u8; 32]) -> Self {
        AccountId(v)
    }
}

impl AsRef<[u8]> for AccountId {
    fn as_ref(&self) -> (out: &[u8])
        ensures
            out@ == self.0@,
    {
        self.0.as_slice()
    }
}

impl AccountId {
    /// Create a new AccountId from bytes
    pub fn new(bytes: [u8; 32]) -> (out: Self)
        ensures
            out.0 == bytes,
    {
        Self(bytes)
    }

    /// Get account ID as bytes slice
    pub fn as_bytes(&self) -> (out: &[u8])
        ensures
            out@ == self.0@,
    {
        self.0.as_slice()
    }
}

impl Encode for AccountId {
    open spec fn encodable(&self) -> bool {
        true
    }

    open spec fn encoding(&self) -> Seq<u8> {
        self.0.encoding()
    }

    fn encode_to(&self, dest: &mut Vec<u8>) {
        self.0.encode_to(dest);
    }
}

impl Decode for AccountId {
    proof fn lemma_prefix_unique(a: Self, b: Self, s: Seq<u8>) {
        <[u8; 32] as Decode>::lemma_prefix_unique(a.0, b.0, s);
    }

    open spec fn decode_error(bytes: Seq<u8>, pos: int) -> Seq<Seq<char>> {
        step_error(field_step::<[u8; 32]>(bytes, pos, "Could not decode `AccountId.0`"@))
    }

    fn decode_at(bytes: &[u8], pos: usize) -> (out: Result<(Self, usize), DecodeError>) {
        match decode_field::<[u8; 32]>(bytes, pos, "Could not decode `AccountId.0`") {
            Ok((x, end)) => Ok((AccountId(x), end)),
            Err(e) => {
                assert forall|v: AccountId| v.encodable() implies !starts_with(
                    bytes@.skip(pos as int),
                    #[trigger] v.encoding(),
                ) by {
                    assert(v.0.encoding() == v.encoding());
                }
                Err(e)
            },
        }
    }

    open spec fn width() -> Option<nat> {
        None
    }

    fn fixed_width() -> (out: Option<usize>) {
        None
    }
}

impl Canonical for AccountId {
    proof fn lemma_encoding_injective(a: Self, b: Self) {
        <[u8; 32] as Canonical>::lemma_encoding_injective(a.0, b.0);
    }
}

/// Blake 3 hash as bytes
#[derive(Debug, Clone, Copy, Eq, Hash)]
pub struct Hash(pub [u8; 32]);

impl From<[u8; 32]> for Hash {
    fn from(value: [u8; 32]) -> (out: Self) {
        Hash(value)
    }
}

impl FromSpecImpl<[u8; 32]> for Hash {
    open spec fn obeys_from_spec() -> bool {
        true
    }

    open spec fn from_spec(v: [u8; 32]) -> Self {
        Hash(v)
    }
}

impl PartialEq for Hash {
    fn eq(&self, other: &Self) -> (out: bool) {
        let a: &[u8] = self.0.as_slice();
        let b: &[u8] = other.0.as_slice();
        let out = crate::utils::bytes_equal(a, b);
        assert(a@ == self.0@ && b@ == other.0@);
        out
    }
}

impl PartialEqSpecImpl for Hash {
    open spec fn obeys_eq_spec() -> bool {
        true
    }

    open spec fn eq_spec(&self, other: &Self) -> bool {
        self.0@ == other.0@
    }
}

impl AsRef<[u8]> for Hash {
    fn as_ref(&self) -> (out: &[u8])
        ensures
            out@ == self.0@,
    {
        self.0.as_slice()
    }
}

impl Hash {
    /// Whether every byte of the hash is zero.
    pub open spec fn spec_is_zero(&self) -> bool {
        all_zero(self.0@)
    }

    /// Create a zero hash (all bytes are zero)
    pub fn zero() -> (out: Self)
        ensures
            out.spec_is_zero(),
    {
        Self([0u8; 32])
    }

    /// Check if hash is all zeros
    pub fn is_zero(&self) -> (out: bool)
        ensures
            out == self.spec_is_zero(),
    {
        let mut i: usize = 0;
        while i < 32
            invariant
                i <= 32,
                forall|j: int| 0 <= j < i ==> self.0@[j] == 0,
            decreases 32 - i,
        {
            if self.0[i] != 0 {
                return false;
            }
            i = i + 1;
        }
        true
    }
}

impl Encode for Hash {
    open spec fn encodable(&self) -> bool {
        true
    }

    open spec fn encoding(&self) -> Seq<u8> {
        self.0.encoding()
    }

    fn encode_to(&self, dest: &mut Vec<u8>) {
        self.0.encode_to(dest);
    }
}

impl Decode for Hash {
    proof fn lemma_prefix_unique(a: Self, b: Self, s: Seq<u8>) {
        <[u8; 32] as Decode>::lemma_prefix_unique(a.0, b.0, s);
    }

    open spec fn decode_error(bytes: Seq<u8>, pos: int) -> Seq<Seq<char>> {
        step_error(field_step::<[u8; 32]>(bytes, pos, "Could not decode `Hash.0`"@))
    }

    fn decode_at(bytes: &[u8], pos: usize) -> (out: Result<(Self, usize), DecodeError>) {
        match decode_field::<[u8; 32]>(bytes, pos, "Could not decode `Hash.0`") {
            Ok((x, end)) => Ok((Hash(x), end)),
            Err(e) => {
                assert forall|v: Hash| v.encodable() implies !starts_with(
                    bytes@.skip(pos as int),
                    #[trigger] v.encoding(),
                ) by {
                    assert(v.0.encoding() == v.encoding());
                }
                Err(e)
            },
        }
    }

    open spec fn width() -> Option<nat> {
        None
    }

    fn fixed_width() -> (out: Option<usize>) {
        None
    }
}

impl Canonical for Hash {
    proof fn lemma_encoding_injective(a: Self, b: Self) {
        <[u8; 32] as Canonical>::lemma_encoding_injective(a.0, b.0);
    }
}

/// Block number in the chain
#[derive(Debug, Clone, Copy, PartialEq, Eq, Structural, PartialOrd, Ord, Hash)]
pub struct BlockNumber(pub u32);

impl From<u32> for BlockNumber {
    fn from(value: u32) -> (out: Self) {
        BlockNumber(value)
    }
}

impl FromSpecImpl<u32> for BlockNumber {
    open spec fn obeys_from_spec() -> bool {
        true
    }

    open spec fn from_spec(v: u32) -> Self {
        BlockNumber(v)
    }
}

impl From<BlockNumber> for u32 {
    fn from(value: BlockNumber) -> (out: Self) {
        value.0
    }
}

impl FromSpecImpl<BlockNumber> for u32 {
    open spec fn obeys_from_spec() -> bool {
        true
    }

    open spec fn from_spec(v: BlockNumber) -> Self {
        v.0
    }
}

impl core::ops::Add<u32> for BlockNumber {
    type Output = Self;

    fn add(self, other: u32) -> (out: Self) {
        Self(self.0 + other)
    }
}

impl AddSpecImpl<u32> for BlockNumber {
    open spec fn obeys_add_spec() -> bool {
        true
    }

    open spec fn add_req(self, other: u32) -> bool {
        self.0 + other <= u32::MAX
    }

    open spec fn add_spec(self, other: u32) -> Self {
        BlockNumber((self.0 + other) as u32)
    }
}

impl Encode for BlockNumber {
    open spec fn encodable(&self) -> bool {
        true
    }

    open spec fn encoding(&self) -> Seq<u8> {
        self.0.encoding()
    }

    fn encode_to(&self, dest: &mut Vec<u8>) {
        self.0.encode_to(dest);
    }
}

impl Decode for BlockNumber {
    proof fn lemma_prefix_unique(a: Self, b: Self, s: Seq<u8>) {
        <u32 as Decode>::lemma_prefix_unique(a.0, b.0, s);
    }

    open spec fn decode_error(bytes: Seq<u8>, pos: int) -> Seq<Seq<char>> {
        step_error(field_step::<u32>(bytes, pos, "Could not decode `BlockNumber.0`"@))
    }

    fn decode_at(bytes: &[u8], pos: usize) -> (out: Result<(Self, usize), DecodeError>) {
        match decode_field::<u32>(bytes, pos, "Could not decode `BlockNumber.0`") {
            Ok((x, end)) => Ok((BlockNumber(x), end)),
            Err(e) => {
                assert forall|v: BlockNumber| v.encodable() implies !starts_with(
                    bytes@.skip(pos as int),
                    #[trigger] v.encoding(),
                ) by {
                    assert(v.0.encoding() == v.encoding());
                }
                Err(e)
            },
        }
    }

    open spec fn width() -> Option<nat> {
        None
    }

    fn fixed_width() -> (out: Option<usize>) {
        None
    }
}

impl Canonical for BlockNumber {
    proof fn lemma_encoding_injective(a: Self, b: Self) {
        <u32 as Canonical>::lemma_encoding_injective(a.0, b.0);
    }
}

/// Unix timestamp in milliseconds
#[derive(Debug, Clone, Copy, PartialEq, Eq, Structural, PartialOrd, Ord, Hash)]
pub struct Timestamp(pub u64);

impl From<u64> for Timestamp {
    fn from(value: u64) -> (out: Self) {
        Timestamp(value)
    }
}

impl FromSpecImpl<u64> for Timestamp {
    open spec fn obeys_from_spec() -> bool {
        true
    }

    open spec fn from_spec(v: u64) -> Self {
        Timestamp(v)
    }
}

impl From<Timestamp> for u64 {
    fn from(value: Timestamp) -> (out: Self) {
        value.0
    }
}

impl FromSpecImpl<Timestamp> for u64 {
    open spec fn obeys_from_spec() -> bool {
        true
    }

    open spec fn from_spec(v: Timestamp) -> Self {
        v.0
    }
}

/// `a - b`, or zero when `b` exceeds `a`.
pub open spec fn saturating_diff(a: int, b: int) -> int {
    if a >= b {
        a - b
    } else {
        0
    }
}

impl Timestamp {
    /// Saturating subtraction
    pub fn saturating_sub(self, other: Self) -> (out: u64)
        ensures
            out == saturating_diff(self.0 as int, other.0 as int),
    {
        self.0.saturating_sub(other.0)
    }
}

impl Encode for Timestamp {
    open spec fn encodable(&self) -> bool {
        true
    }

    open spec fn encoding(&self) -> Seq<u8> {
        self.0.encoding()
    }

    fn encode_to(&self, dest: &mut Vec<u8>) {
        self.0.encode_to(dest);
    }
}

impl Decode for Timestamp {
    proof fn lemma_prefix_unique(a: Self, b: Self, s: Seq<u8>) {
        <u64 as Decode>::lemma_prefix_unique(a.0, b.0, s);
    }

    open spec fn decode_error(bytes: Seq<u8>, pos: int) -> Seq<Seq<char>> {
        step_error(field_step::<u64>(bytes, pos, "Could not decode `Timestamp.0`"@))
    }

    fn decode_at(bytes: &[u8], pos: usize) -> (out: Result<(Self, usize), DecodeError>) {
        match decode_field::<u64>(bytes, pos, "Could not decode `Timestamp.0`") {
            Ok((x, end)) => Ok((Timestamp(x), end)),
            Err(e) => {
                assert forall|v: Timestamp| v.encodable() implies !starts_with(
                    bytes@.skip(pos as int),
                    #[trigger] v.encoding(),
                ) by {
                    assert(v.0.encoding() == v.encoding());
                }
                Err(e)
            },
        }
    }

    open spec fn width() -> Option<nat> {
        None
    }

    fn fixed_width() -> (out: Option<usize>) {
        None
    }
}

impl Canonical for Timestamp {
    proof fn lemma_encoding_injective(a: Self, b: Self) {
        <u64 as Canonical>::lemma_encoding_injective(a.0, b.0);
    }
}

/// Weight represents computational cost
#[derive(Debug, Clone, Copy, PartialEq, Eq, Structural, PartialOrd, Ord, Hash)]
pub struct Weight(pub u64);

impl From<u64> for Weight {
    fn from(value: u64) -> (out: Self) {
        Weight(value)
    }
}

impl FromSpecImpl<u64> for Weight {
    open spec fn obeys_from_spec() -> bool {
        true
    }

    open spec fn from_spec(v: u64) -> Self {
        Weight(v)
    }
}

impl From<Weight> for u64 {
    fn from(value: Weight) -> (out: Self) {
        value.0
    }
}

impl FromSpecImpl<Weight> for u64 {
    open spec fn obeys_from_spec() -> bool {
        true
    }

    open spec fn from_spec(v: Weight) -> Self {
        v.0
    }
}

impl core::ops::Add for Weight {
    type Output = Self;

    fn add(self, other: Self) -> (out: Self) {
        Self(self.0 + other.0)
    }
}

impl AddSpecImpl for Weight {
    open spec fn obeys_add_spec() -> bool {
        true
    }

    open spec fn add_req(self, other: Self) -> bool {
        self.0 + other.0 <= u64::MAX
    }

    open spec fn add_spec(self, other: Self) -> Self {
        Weight((self.0 + other.0) as u64)
    }
}

impl core::ops::Mul<u64> for Weight {
    type Output = Self;

    fn mul(self, other: u64) -> (out: Self) {
        Self(self.0 * other)
    }
}

impl MulSpecImpl<u64> for Weight {
    open spec fn obeys_mul_spec() -> bool {
        true
    }

    open spec fn mul_req(self, other: u64) -> bool {
        self.0 * other <= u64::MAX
    }

    open spec fn mul_spec(self, other: u64) -> Self {
        Weight((self.0 * other) as u64)
    }
}

impl Encode for Weight {
    open spec fn encodable(&self) -> bool {
        true
    }

    open spec fn encoding(&self) -> Seq<u8> {
        self.0.encoding()
    }

    fn encode_to(&self, dest: &mut Vec<u8>) {
        self.0.encode_to(dest);
    }
}

impl Decode for Weight {
    proof fn lemma_prefix_unique(a: Self, b: Self, s: Seq<u8>) {
        <u64 as Decode>::lemma_prefix_unique(a.0, b.0, s);
    }

    open spec fn decode_error(bytes: Seq<u8>, pos: int) -> Seq<Seq<char>> {
        step_error(field_step::<u64>(bytes, pos, "Could not decode `Weight.0`"@))
    }

    fn decode_at(bytes: &[u8], pos: usize) -> (out: Result<(Self, usize), DecodeError>) {
        match decode_field::<u64>(bytes, pos, "Could not decode `Weight.0`") {
            Ok((x, end)) => Ok((Weight(x), end)),
            Err(e) => {
                assert forall|v: Weight| v.encodable() implies !starts_with(
                    bytes@.skip(pos as int),
                    #[trigger] v.encoding(),
                ) by {
                    assert(v.0.encoding() == v.encoding());
                }
                Err(e)
            },
        }
    }

    open spec fn width() -> Option<nat> {
        None
    }

    fn fixed_width() -> (out: Option<usize>) {
        None
    }
}

impl Canonical for Weight {
    proof fn lemma_encoding_injective(a: Self, b: Self) {
        <u64 as Canonical>::lemma_encoding_injective(a.0, b.0);
    }
}

/// Gas amount for computation
#[derive(Debug, Clone, Copy, PartialEq, Eq, Structural, PartialOrd, Ord, Hash)]
pub struct Gas(pub u64);

impl From<u64> for Gas {
    fn from(value: u64) -> (out: Self) {
        Gas(value)
    }
}

impl FromSpecImpl<u64> for Gas {
    open spec fn obeys_from_spec() -> bool {
        true
    }

    open spec fn from_spec(v: u64) -> Self {
        Gas(v)
    }
}

impl From<Gas> for u64 {
    fn from(value: Gas) -> (out: Self) {
        value.0
    }
}

impl FromSpecImpl<Gas> for u64 {
    open spec fn obeys_from_spec() -> bool {
        true
    }

    open spec fn from_spec(v: Gas) -> Self {
        v.0
    }
}

impl Gas {
    /// Saturating multiplication with u64. The product of two `u64` values
    /// always fits a `u128`, so the result is the exact product.
    pub fn saturating_mul(self, other: u64) -> (out: Balance)
        ensures
            out.0 == self.0 * other,
    {
        let a = self.0 as u128;
        let b = other as u128;
        assert(a * b <= 0xffff_ffff_ffff_ffffu128 * 0xffff_ffff_ffff_ffffu128) by (nonlinear_arith)
            requires a <= 0xffff_ffff_ffff_ffffu128, b <= 0xffff_ffff_ffff_ffffu128;
        Balance(a * b)
    }

    /// Convert to little endian bytes
    pub fn to_le_bytes(self) -> (out: [u8; 8])
        ensures
            out@ == crate::utils::codec::le_bytes(self.0 as nat, 8),
    {
        let mut out = [0u8; 8];
        let mut x: u64 = self.0;
        let mut i: usize = 0;
        while i < 8
            invariant
                i <= 8,
                out@.len() == 8,
                crate::utils::codec::le_bytes(self.0 as nat, 8) == out@.take(i as int) + crate::utils::codec::le_bytes(x as nat, (8 - i) as nat),
            decreases 8 - i,
        {
            let ghost prev = out@;
            out[i] = (x % 256) as u8;
            assert(out@.take(i + 1) =~= prev.take(i as int).push((x % 256) as u8));
            assert(crate::utils::codec::le_bytes(x as nat, (8 - i) as nat) == seq![(x % 256) as u8] + crate::utils::codec::le_bytes((x / 256) as nat, (8 - i - 1) as nat));
            assert(prev.take(i as int) + crate::utils::codec::le_bytes(x as nat, (8 - i) as nat) =~= out@.take(i + 1) + crate::utils::codec::le_bytes((x / 256) as nat, (8 - i - 1) as nat));
            x = x / 256;
            i = i + 1;
        }
        assert(out@.take(8) =~= out@);
        assert(out@ + crate::utils::codec::le_bytes(x as nat, 0) =~= out@);
        out
    }
}

impl Encode for Gas {
    open spec fn encodable(&self) -> bool {
        true
    }

    open spec fn encoding(&self) -> Seq<u8> {
        self.0.encoding()
    }

    fn encode_to(&self, dest: &mut Vec<u8>) {
        self.0.encode_to(dest);
    }
}

impl Decode for Gas {
    proof fn lemma_prefix_unique(a: Self, b: Self, s: Seq<u8>) {
        <u64 as Decode>::lemma_prefix_unique(a.0, b.0, s);
    }

    open spec fn decode_error(bytes: Seq<u8>, pos: int) -> Seq<Seq<char>> {
        step_error(field_step::<u64>(bytes, pos, "Could not decode `Gas.0`"@))
    }

    fn decode_at(bytes: &[u8], pos: usize) -> (out: Result<(Self, usize), DecodeError>) {
        match decode_field::<u64>(bytes, pos, "Could not decode `Gas.0`") {
            Ok((x, end)) => Ok((Gas(x), end)),
            Err(e) => {
                assert forall|v: Gas| v.encodable() implies !starts_with(
                    bytes@.skip(pos as int),
                    #[trigger] v.encoding(),
                ) by {
                    assert(v.0.encoding() == v.encoding());
                }
                Err(e)
            },
        }
    }

    open spec fn width() -> Option<nat> {
        None
    }

    fn fixed_width() -> (out: Option<usize>) {
        None
    }
}

impl Canonical for Gas {
    proof fn lemma_encoding_injective(a: Self, b: Self) {
        <u64 as Canonical>::lemma_encoding_injective(a.0, b.0);
    }
}

/// Balance type for token amounts
#[derive(Debug, Clone, Copy, PartialEq, Eq, Structural, PartialOrd, Ord, Hash)]
pub struct Balance(pub u128);

impl From<u128> for Balance {
    fn from(value: u128) -> (out: Self) {
        Balance(value)
    }
}

impl FromSpecImpl<u128> for Balance {
    open spec fn obeys_from_spec() -> bool {
        true
    }

    open spec fn from_spec(v: u128) -> Self {
        Balance(v)
    }
}

impl From<Balance> for u128 {
    fn from(value: Balance) -> (out: Self) {
        value.0
    }
}

impl FromSpecImpl<Balance> for u128 {
    open spec fn obeys_from_spec() -> bool {
        true
    }

    open spec fn from_spec(v: Balance) -> Self {
        v.0
    }
}

/// `v`, or `max` when `v` exceeds it.
pub open spec fn clamp_to(v: int, max: int) -> int {
    if v > max {
        max
    } else {
        v
    }
}

impl Balance {
    /// Zero balance
    pub fn zero() -> (out: Self)
        ensures
            out.0 == 0,
    {
        Self(0)
    }

    /// Maximum balance
    pub fn max_value() -> (out: Self)
        ensures
            out.0 == u128::MAX,
    {
        Self(u128::MAX)
    }

    /// Saturating multiplication
    pub fn saturating_mul(self, other: u64) -> (out: Self)
        ensures
            out.0 == clamp_to(self.0 * other, u128::MAX as int),
    {
        match self.0.checked_mul(other as u128) {
            Some(p) => Self(p),
            None => Self(u128::MAX),
        }
    }

    /// Saturating addition
    pub fn saturating_add(self, other: Self) -> (out: Self)
        ensures
            out.0 == clamp_to(self.0 + other.0, u128::MAX as int),
    {
        Self(self.0.saturating_add(other.0))
    }

    /// Saturating subtraction
    pub fn saturating_sub(self, other: Self) -> (out: Self)
        ensures
            out.0 == saturating_diff(self.0 as int, other.0 as int),
    {
        Self(self.0.saturating_sub(other.0))
    }
}

impl Encode for Balance {
    open spec fn encodable(&self) -> bool {
        true
    }

    open spec fn encoding(&self) -> Seq<u8> {
        self.0.encoding()
    }

    fn encode_to(&self, dest: &mut Vec<u8>) {
        self.0.encode_to(dest);
    }
}

impl Decode for Balance {
    proof fn lemma_prefix_unique(a: Self, b: Self, s: Seq<u8>) {
        <u128 as Decode>::lemma_prefix_unique(a.0, b.0, s);
    }

    open spec fn decode_error(bytes: Seq<u8>, pos: int) -> Seq<Seq<char>> {
        step_error(field_step::<u128>(bytes, pos, "Could not decode `Balance.0`"@))
    }

    fn decode_at(bytes: &[u8], pos: usize) -> (out: Result<(Self, usize), DecodeError>) {
        match decode_field::<u128>(bytes, pos, "Could not decode `Balance.0`") {
            Ok((x, end)) => Ok((Balance(x), end)),
            Err(e) => {
                assert forall|v: Balance| v.encodable() implies !starts_with(
                    bytes@.skip(pos as int),
                    #[trigger] v.encoding(),
                ) by {
                    assert(v.0.encoding() == v.encoding());
                }
                Err(e)
            },
        }
    }

    open spec fn width() -> Option<nat> {
        None
    }

    fn fixed_width() -> (out: Option<usize>) {
        None
    }
}

impl Canonical for Balance {
    proof fn lemma_encoding_injective(a: Self, b: Self) {
        <u128 as Canonical>::lemma_encoding_injective(a.0, b.0);
    }
}

/// Service identifier
#[derive(Debug, Clone, Copy, PartialEq, Eq, Structural, Hash)]
pub struct ServiceId(pub u32);

impl ServiceId {
    /// Create a new ServiceId
    pub fn new(id: u32) -> (out: Self)
        ensures
            out.0 == id,
    {
        Self(id)
    }
}

impl From<u32> for ServiceId {
    fn from(value: u32) -> (out: Self) {
        ServiceId(value)
    }
}

impl FromSpecImpl<u32> for ServiceId {
    open spec fn obeys_from_spec() -> bool {
        true
    }

    open spec fn from_spec(v: u32) -> Self {
        ServiceId(v)
    }
}

impl From<ServiceId> for u32 {
    fn from(value: ServiceId) -> (out: Self) {
        value.0
    }
}

impl FromSpecImpl<ServiceId> for u32 {
    open spec fn obeys_from_spec() -> bool {
        true
    }

    open spec fn from_spec(v: ServiceId) -> Self {
        v.0
    }
}

impl Encode for ServiceId {
    open spec fn encodable(&self) -> bool {
        true
    }

    open spec fn encoding(&self) -> Seq<u8> {
        self.0.encoding()
    }

    fn encode_to(&self, dest: &mut Vec<u8>) {
        self.0.encode_to(dest);
    }
}

impl Decode for ServiceId {
    proof fn lemma_prefix_unique(a: Self, b: Self, s: Seq<u8>) {
        <u32 as Decode>::lemma_prefix_unique(a.0, b.0, s);
    }

    open spec fn decode_error(bytes: Seq<u8>, pos: int) -> Seq<Seq<char>> {
        step_error(field_step::<u32>(bytes, pos, "Could not decode `ServiceId.0`"@))
    }

    fn decode_at(bytes: &[u8], pos: usize) -> (out: Result<(Self, usize), DecodeError>) {
        match decode_field::<u32>(bytes, pos, "Could not decode `ServiceId.0`") {
            Ok((x, end)) => Ok((ServiceId(x), end)),
            Err(e) => {
                assert forall|v: ServiceId| v.encodable() implies !starts_with(
                    bytes@.skip(pos as int),
                    #[trigger] v.encoding(),
                ) by {
                    assert(v.0.encoding() == v.encoding());
                }
                Err(e)
            },
        }
    }

    open spec fn width() -> Option<nat> {
        None
    }

    fn fixed_width() -> (out: Option<usize>) {
        None
    }
}

impl Canonical for ServiceId {
    proof fn lemma_encoding_injective(a: Self, b: Self) {
        <u32 as Canonical>::lemma_encoding_injective(a.0, b.0);
    }
}

/// Time slot in the JAM protocol
#[derive(Debug, Clone, Copy, PartialEq, Eq, Structural, PartialOrd, Ord, Hash)]
pub struct TimeSlot(pub u32);

impl From<u32> for TimeSlot {
    fn from(value: u32) -> (out: Self) {
        TimeSlot(value)
    }
}

impl FromSpecImpl<u32> for TimeSlot {
    open spec fn obeys_from_spec() -> bool {
        true
    }

    open spec fn from_spec(v: u32) -> Self {
        TimeSlot(v)
    }
}

impl From<TimeSlot> for u32 {
    fn from(value: TimeSlot) -> (out: Self) {
        value.0
    }
}

impl FromSpecImpl<TimeSlot> for u32 {
    open spec fn obeys_from_spec() -> bool {
        true
    }

    open spec fn from_spec(v: TimeSlot) -> Self {
        v.0
    }
}

impl Encode for TimeSlot {
    open spec fn encodable(&self) -> bool {
        true
    }

    open spec fn encoding(&self) -> Seq<u8> {
        self.0.encoding()
    }

    fn encode_to(&self, dest: &mut Vec<u8>) {
        self.0.encode_to(dest);
    }
}

impl Decode for TimeSlot {
    proof fn lemma_prefix_unique(a: Self, b: Self, s: Seq<u8>) {
        <u32 as Decode>::lemma_prefix_unique(a.0, b.0, s);
    }

    open spec fn decode_error(bytes: Seq<u8>, pos: int) -> Seq<Seq<char>> {
        step_error(field_step::<u32>(bytes, pos, "Could not decode `TimeSlot.0`"@))
    }

    fn decode_at(bytes: &[u8], pos: usize) -> (out: Result<(Self, usize), DecodeError>) {
        match decode_field::<u32>(bytes, pos, "Could not decode `TimeSlot.0`") {
            Ok((x, end)) => Ok((TimeSlot(x), end)),
            Err(e) => {
                assert forall|v: TimeSlot| v.encodable() implies !starts_with(
                    bytes@.skip(pos as int),
                    #[trigger] v.encoding(),
                ) by {
                    assert(v.0.encoding() == v.encoding());
                }
                Err(e)
            },
        }
    }

    open spec fn width() -> Option<nat> {
        None
    }

    fn fixed_width() -> (out: Option<usize>) {
        None
    }
}

impl Canonical for TimeSlot {
    proof fn lemma_encoding_injective(a: Self, b: Self) {
        <u32 as Canonical>::lemma_encoding_injective(a.0, b.0);
    }
}

/// All supported signatures types generic enum
#[derive(Debug, Clone, Eq)]
pub enum Signature {
    /// Ed25519 signature (64 bytes)
    Ed25519([u8; 64]),
    /// ECDSA signature (65 bytes with recovery)
    Ecdsa([u8; 65]),
    /// Bandersnatch signature (for VRF operations)
    Bandersnatch([u8; 64]),
}

impl PartialEq for Signature {
    fn eq(&self, other: &Self) -> (out: bool) {
        match (self, other) {
            (Signature::Ed25519(a), Signature::Ed25519(b)) => crate::utils::bytes_equal(a.as_slice(), b.as_slice()),
            (Signature::Ecdsa(a), Signature::Ecdsa(b)) => crate::utils::bytes_equal(a.as_slice(), b.as_slice()),
            (Signature::Bandersnatch(a), Signature::Bandersnatch(b)) => crate::utils::bytes_equal(a.as_slice(), b.as_slice()),
            _ => false,
        }
    }
}

impl PartialEqSpecImpl for Signature {
    open spec fn obeys_eq_spec() -> bool {
        true
    }

    open spec fn eq_spec(&self, other: &Self) -> bool {
        self.variant_index() == other.variant_index() && self.spec_bytes() == other.spec_bytes()
    }
}

impl Signature {
    /// The position of the variant in the declaration (its SCALE tag).
    pub open spec fn variant_index(&self) -> u8 {
        match self {
            Signature::Ed25519(_) => 0,
            Signature::Ecdsa(_) => 1,
            Signature::Bandersnatch(_) => 2,
        }
    }

    /// The signature bytes.
    pub open spec fn spec_bytes(&self) -> Seq<u8> {
        match self {
            Signature::Ed25519(b) => b@,
            Signature::Ecdsa(b) => b@,
            Signature::Bandersnatch(b) => b@,
        }
    }

    /// Create an Ed25519 signature
    pub fn ed25519(bytes: [u8; 64]) -> (out: Self)
        ensures
            out == Signature::Ed25519(bytes),
    {
        Self::Ed25519(bytes)
    }

    /// Create an ECDSA signature
    pub fn ecdsa(bytes: [u8; 65]) -> (out: Self)
        ensures
            out == Signature::Ecdsa(bytes),
    {
        Self::Ecdsa(bytes)
    }

    /// Create a Bandersnatch signature
    pub fn bandersnatch(bytes: [u8; 64]) -> (out: Self)
        ensures
            out == Signature::Bandersnatch(bytes),
    {
        Self::Bandersnatch(bytes)
    }

    /// Get the signature as bytes
    pub fn as_bytes(&self) -> (out: &[u8])
        ensures
            out@ == self.spec_bytes(),
    {
        match self {
            Self::Ed25519(bytes) => bytes.as_slice(),
            Self::Ecdsa(bytes) => bytes.as_slice(),
            Self::Bandersnatch(bytes) => bytes.as_slice(),
        }
    }

    /// Builds a signature of the variant at position `variant` (`0` Ed25519,
    /// `1` ECDSA, `2` Bandersnatch) from its bytes; `None` when the variant is
    /// unknown or the number of bytes is not the one the variant holds.
    pub fn from_variant_bytes(variant: u8, bytes: &[u8]) -> (out: Option<Self>)
        ensures
            match out {
                Some(sig) => sig.variant_index() == variant && sig.spec_bytes() == bytes@,
                None => !(variant == 0 && bytes@.len() == 64)
                    && !(variant == 1 && bytes@.len() == 65)
                    && !(variant == 2 && bytes@.len() == 64),
            },
    {
        if variant == 0 && bytes.len() == 64 {
            let mut a = [0u8; 64];
            crate::utils::copy_into(&mut a, bytes);
            Some(Signature::Ed25519(a))
        } else if variant == 1 && bytes.len() == 65 {
            let mut a = [0u8; 65];
            crate::utils::copy_into(&mut a, bytes);
            Some(Signature::Ecdsa(a))
        } else if variant == 2 && bytes.len() == 64 {
            let mut a = [0u8; 64];
            crate::utils::copy_into(&mut a, bytes);
            Some(Signature::Bandersnatch(a))
        } else {
            None
        }
    }
}

impl Encode for Signature {
    open spec fn encodable(&self) -> bool {
        true
    }

    open spec fn encoding(&self) -> Seq<u8> {
        seq![self.variant_index()] + self.spec_bytes()
    }

    fn encode_to(&self, dest: &mut Vec<u8>) {
        match self {
            Signature::Ed25519(b) => {
                dest.push(0u8);
                b.encode_to(dest);
            },
            Signature::Ecdsa(b) => {
                dest.push(1u8);
                b.encode_to(dest);
            },
            Signature::Bandersnatch(b) => {
                dest.push(2u8);
                b.encode_to(dest);
            },
        }
        assert(dest@ =~= old(dest)@ + self.encoding());
    }
}


impl Decode for Signature {
    proof fn lemma_prefix_unique(a: Self, b: Self, s: Seq<u8>) {
        lemma_starts_with_tag(s, a.variant_index(), a.spec_bytes());
        lemma_starts_with_tag(s, b.variant_index(), b.spec_bytes());
        lemma_same_length_prefixes(s, a.encoding(), b.encoding());
    }

    open spec fn decode_error(bytes: Seq<u8>, pos: int) -> Seq<Seq<char>> {
        if pos >= bytes.len() {
            seq!["Not enough data to fill buffer"@, "Could not decode `Signature`, failed to read variant byte"@]
        } else if bytes[pos] == 0 {
            step_error(field_step::<[u8; 64]>(bytes, pos + 1, "Could not decode `Signature::Ed25519.0`"@))
        } else if bytes[pos] == 1 {
            step_error(field_step::<[u8; 65]>(bytes, pos + 1, "Could not decode `Signature::Ecdsa.0`"@))
        } else if bytes[pos] == 2 {
            step_error(field_step::<[u8; 64]>(bytes, pos + 1, "Could not decode `Signature::Bandersnatch.0`"@))
        } else {
            seq!["Could not decode `Signature`, variant doesn't exist"@]
        }
    }

    fn decode_at(bytes: &[u8], pos: usize) -> (out: Result<(Self, usize), DecodeError>) {
        let mut input: &[u8] = &bytes[pos..bytes.len()];
        assert(input@ =~= bytes@.skip(pos as int));
        let tag = match scale_u8(&mut input) {
            Ok(t) => t,
            Err(t) => {
                assert forall|v: Signature| v.encodable() implies !starts_with(
                    bytes@.skip(pos as int),
                    #[trigger] v.encoding(),
                ) by {
                    assert(v.encoding().len() > 0);
                }
                return Err(chained(error_from(t), "Could not decode `Signature`, failed to read variant byte"));
            },
        };
        assert(tag == bytes@[pos as int]);
        if tag == 0 {
            return match decode_field::<[u8; 64]>(bytes, pos + 1, "Could not decode `Signature::Ed25519.0`") {
                Ok((b, end)) => {
                    assert(bytes@.subrange(pos as int, end as int) =~= seq![0u8]
                        + bytes@.subrange(pos + 1, end as int));
                    Ok((Signature::Ed25519(b), end))
                },
                Err(e) => {
                    assert forall|v: Signature| v.encodable() implies !starts_with(
                        bytes@.skip(pos as int),
                        #[trigger] v.encoding(),
                    ) by {
                        if starts_with(bytes@.skip(pos as int), v.encoding()) {
                            lemma_starts_with_tag(bytes@.skip(pos as int), v.variant_index(), v.spec_bytes());
                            assert(bytes@.skip(pos as int).skip(1) =~= bytes@.skip(pos + 1));
                            if let Signature::Ed25519(b) = v {
                                assert(b.encoding() == b@);
                            }
                        }
                    }
                    Err(e)
                },
            };
        }
        if tag == 1 {
            return match decode_field::<[u8; 65]>(bytes, pos + 1, "Could not decode `Signature::Ecdsa.0`") {
                Ok((b, end)) => {
                    assert(bytes@.subrange(pos as int, end as int) =~= seq![1u8]
                        + bytes@.subrange(pos + 1, end as int));
                    Ok((Signature::Ecdsa(b), end))
                },
                Err(e) => {
                    assert forall|v: Signature| v.encodable() implies !starts_with(
                        bytes@.skip(pos as int),
                        #[trigger] v.encoding(),
                    ) by {
                        if starts_with(bytes@.skip(pos as int), v.encoding()) {
                            lemma_starts_with_tag(bytes@.skip(pos as int), v.variant_index(), v.spec_bytes());
                            assert(bytes@.skip(pos as int).skip(1) =~= bytes@.skip(pos + 1));
                            if let Signature::Ecdsa(b) = v {
                                assert(b.encoding() == b@);
                            }
                        }
                    }
                    Err(e)
                },
            };
        }
        if tag == 2 {
            return match decode_field::<[u8; 64]>(bytes, pos + 1, "Could not decode `Signature::Bandersnatch.0`") {
                Ok((b, end)) => {
                    assert(bytes@.subrange(pos as int, end as int) =~= seq![2u8]
                        + bytes@.subrange(pos + 1, end as int));
                    Ok((Signature::Bandersnatch(b), end))
                },
                Err(e) => {
                    assert forall|v: Signature| v.encodable() implies !starts_with(
                        bytes@.skip(pos as int),
                        #[trigger] v.encoding(),
                    ) by {
                        if starts_with(bytes@.skip(pos as int), v.encoding()) {
                            lemma_starts_with_tag(bytes@.skip(pos as int), v.variant_index(), v.spec_bytes());
                            assert(bytes@.skip(pos as int).skip(1) =~= bytes@.skip(pos + 1));
                            if let Signature::Bandersnatch(b) = v {
                                assert(b.encoding() == b@);
                            }
                        }
                    }
                    Err(e)
                },
            };
        }
        assert forall|v: Signature| v.encodable() implies !starts_with(
            bytes@.skip(pos as int),
            #[trigger] v.encoding(),
        ) by {
            if starts_with(bytes@.skip(pos as int), v.encoding()) {
                lemma_starts_with_tag(bytes@.skip(pos as int), v.variant_index(), v.spec_bytes());
            }
        }
        Err(error_desc("Could not decode `Signature`, variant doesn't exist"))
    }

    open spec fn width() -> Option<nat> {
        None
    }

    fn fixed_width() -> (out: Option<usize>) {
        None
    }
}

impl Canonical for Signature {
    proof fn lemma_encoding_injective(a: Self, b: Self) {
        assert(a.encoding()[0] == a.variant_index());
        assert(b.encoding()[0] == b.variant_index());
        assert(a.spec_bytes() =~= a.encoding().skip(1));
        assert(b.spec_bytes() =~= b.encoding().skip(1));
        match (a, b) {
            (Signature::Ed25519(x), Signature::Ed25519(y)) => { assert(x =~= y); },
            (Signature::Ecdsa(x), Signature::Ecdsa(y)) => { assert(x =~= y); },
            (Signature::Bandersnatch(x), Signature::Bandersnatch(y)) => { assert(x =~= y); },
            _ => {},
        }
    }
}

} // verus!
