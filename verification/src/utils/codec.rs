//! SCALE encoding of the protocol types.
//!
//! Fixed-width integers are written little endian, byte arrays are written as
//! they are, sequences are prefixed by their length in compact form, options
//! by a tag byte, and enum values by the index of their variant.

use vstd::prelude::*;

use crate::{PrimitiveError, PrimitiveResult};

verus! {

/// `n` little-endian bytes of `v` (the low `8 * n` bits of `v`).
pub open spec fn le_bytes(v: nat, n: nat) -> Seq<u8>
    decreases n,
{
    if n == 0 {
        Seq::empty()
    } else {
        seq![(v % 256) as u8] + le_bytes(v / 256, (n - 1) as nat)
    }
}

/// Appends the `n` low-order bytes of `v` to `dest`, least significant first.
pub fn push_le_bytes(dest: &mut Vec<u8>, v: u128, n: usize)
    ensures
        final(dest)@ == old(dest)@ + le_bytes(v as nat, n as nat),
{
    let mut x: u128 = v;
    let mut i: usize = 0;
    while i < n
        invariant
            i <= n,
            old(dest)@ + le_bytes(v as nat, n as nat) == dest@ + le_bytes(x as nat, (n - i) as nat),
        decreases n - i,
    {
        let ghost before = dest@;
        dest.push((x % 256) as u8);
        assert(le_bytes(x as nat, (n - i) as nat) == seq![(x % 256) as u8] + le_bytes((x / 256) as nat, (n - i - 1) as nat));
        assert(before + le_bytes(x as nat, (n - i) as nat) =~= dest@ + le_bytes((x / 256) as nat, (n - i - 1) as nat));
        x = x / 256;
        i = i + 1;
    }
    assert(dest@ + le_bytes(x as nat, 0) =~= dest@);
}


/// A value with a SCALE encoding.
pub trait Encode {
    /// Whether the value can be encoded: every sequence inside it has at most
    /// `u32::MAX` elements (a longer one has no compact length prefix).
    spec fn encodable(&self) -> bool;

    /// The SCALE encoding of the value.
    spec fn encoding(&self) -> Seq<u8>;

    /// Appends the encoding of the value to `dest`.
    fn encode_to(&self, dest: &mut Vec<u8>)
        requires
            self.encodable(),
        ensures
            final(dest)@ == old(dest)@ + self.encoding(),
    ;

    /// The encoding of the value as a new vector.
    fn encode(&self) -> (out: Vec<u8>)
        requires
            self.encodable(),
        ensures
            out@ == self.encoding(),
    {
        let mut out: Vec<u8> = Vec::new();
        self.encode_to(&mut out);
        assert(out@ =~= self.encoding());
        out
    }
}

/// Codec trait: the types that can be both encoded and decoded.
pub trait Codec: Encode + Decode {}

/// Every encodable type is a codec type.
impl<T: Encode + Decode> Codec for T {}

impl Encode for u8 {
    open spec fn encodable(&self) -> bool {
        true
    }

    open spec fn encoding(&self) -> Seq<u8> {
        seq![*self]
    }

    fn encode_to(&self, dest: &mut Vec<u8>) {
        dest.push(*self);
    }
}

impl Encode for bool {
    open spec fn encodable(&self) -> bool {
        true
    }

    open spec fn encoding(&self) -> Seq<u8> {
        if *self {
            seq![1u8]
        } else {
            seq![0u8]
        }
    }

    fn encode_to(&self, dest: &mut Vec<u8>) {
        if *self {
            dest.push(1u8);
        } else {
            dest.push(0u8);
        }
    }
}

impl Encode for u16 {
    open spec fn encodable(&self) -> bool {
        true
    }

    open spec fn encoding(&self) -> Seq<u8> {
        le_bytes(*self as nat, 2)
    }

    fn encode_to(&self, dest: &mut Vec<u8>) {
        push_le_bytes(dest, *self as u128, 2);
    }
}

impl Encode for u32 {
    open spec fn encodable(&self) -> bool {
        true
    }

    open spec fn encoding(&self) -> Seq<u8> {
        le_bytes(*self as nat, 4)
    }

    fn encode_to(&self, dest: &mut Vec<u8>) {
        push_le_bytes(dest, *self as u128, 4);
    }
}

impl Encode for u64 {
    open spec fn encodable(&self) -> bool {
        true
    }

    open spec fn encoding(&self) -> Seq<u8> {
        le_bytes(*self as nat, 8)
    }

    fn encode_to(&self, dest: &mut Vec<u8>) {
        push_le_bytes(dest, *self as u128, 8);
    }
}

impl Encode for u128 {
    open spec fn encodable(&self) -> bool {
        true
    }

    open spec fn encoding(&self) -> Seq<u8> {
        le_bytes(*self as nat, 16)
    }

    fn encode_to(&self, dest: &mut Vec<u8>) {
        push_le_bytes(dest, *self, 16);
    }
}

/// Appends the bytes of `src` to `dest`.
pub fn push_bytes(dest: &mut Vec<u8>, src: &[u8])
    ensures
        final(dest)@ == old(dest)@ + src@,
{
    let mut i: usize = 0;
    while i < src.len()
        invariant
            i <= src@.len(),
            dest@ == old(dest)@ + src@.take(i as int),
        decreases src@.len() - i,
    {
        dest.push(src[i]);
        assert(src@.take(i + 1) =~= src@.take(i as int).push(src@[i as int]));
        i = i + 1;
    }
    assert(src@.take(src@.len() as int) =~= src@);
}

impl<const N: usize> Encode for [u8; N] {
    open spec fn encodable(&self) -> bool {
        true
    }

    open spec fn encoding(&self) -> Seq<u8> {
        self@
    }

    fn encode_to(&self, dest: &mut Vec<u8>) {
        let bytes: &[u8] = self.as_slice();
        assert(bytes@ == self@);
        push_bytes(dest, bytes);
        assert(self.encoding() == self@);
    }
}


/// The compact encoding of a `u32`: values below 2^6 take one byte, below
/// 2^14 two bytes and below 2^30 four bytes, each holding the value shifted
/// left by two over a two-bit mode; larger values take the mode byte `3`
/// followed by the four little-endian bytes of the value.
pub open spec fn compact_u32_encoding(v: u32) -> Seq<u8> {
    if v < 0x40 {
        seq![(v * 4) as u8]
    } else if v < 0x4000 {
        le_bytes((v * 4 + 1) as nat, 2)
    } else if v < 0x4000_0000 {
        le_bytes((v * 4 + 2) as nat, 4)
    } else {
        seq![3u8] + le_bytes(v as nat, 4)
    }
}

/// Whether `p` is a prefix of `s`.
pub open spec fn starts_with(s: Seq<u8>, p: Seq<u8>) -> bool {
    p.len() <= s.len() && s.take(p.len() as int) == p
}

/// Compact encoding of a `u32`, computed by `parity_scale_codec`
/// (`Compact(value).encode()`). Trusted to produce the compact format stated
/// by `compact_u32_encoding`, as the crate's `CompactRef<u32>::encode_to`
/// writes it.
#[verifier::external_body]
pub fn encode_compact_u32(value: u32) -> (out: Vec<u8>)
    ensures
        out@ == compact_u32_encoding(value),
{
    parity_scale_codec::Encode::encode(&parity_scale_codec::Compact(value))
}

/// Appends the compact encoding of the length `len` of a sequence.
pub fn push_compact_len(dest: &mut Vec<u8>, len: usize)
    requires
        len <= u32::MAX,
    ensures
        final(dest)@ == old(dest)@ + compact_u32_encoding(len as u32),
{
    let mut bytes = encode_compact_u32(len as u32);
    dest.append(&mut bytes);
}

/// The concatenated encodings of the elements of `s`.
pub open spec fn encode_all<T: Encode>(s: Seq<T>) -> Seq<u8>
    decreases s.len(),
{
    if s.len() == 0 {
        Seq::empty()
    } else {
        encode_all(s.drop_last()) + s.last().encoding()
    }
}

impl<T: Encode> Encode for Vec<T> {
    open spec fn encodable(&self) -> bool {
        &&& self@.len() <= u32::MAX
        &&& forall|i: int| 0 <= i < self@.len() ==> (#[trigger] self@[i]).encodable()
    }

    open spec fn encoding(&self) -> Seq<u8> {
        compact_u32_encoding(self@.len() as u32) + encode_all(self@)
    }

    fn encode_to(&self, dest: &mut Vec<u8>) {
        push_compact_len(dest, self.len());
        let ghost start = dest@;
        let mut i: usize = 0;
        while i < self.len()
            invariant
                i <= self@.len(),
                self.encodable(),
                dest@ == start + encode_all(self@.take(i as int)),
            decreases self@.len() - i,
        {
            let ghost before = dest@;
            self[i].encode_to(dest);
            assert(self@.take(i + 1).drop_last() =~= self@.take(i as int));
            assert(dest@ =~= start + encode_all(self@.take(i + 1)));
            i = i + 1;
        }
        assert(self@.take(self@.len() as int) =~= self@);
        assert(dest@ =~= old(dest)@ + self.encoding());
    }
}

impl<T: Encode> Encode for Option<T> {
    open spec fn encodable(&self) -> bool {
        match self {
            Some(x) => x.encodable(),
            None => true,
        }
    }

    open spec fn encoding(&self) -> Seq<u8> {
        match self {
            Some(x) => seq![1u8] + x.encoding(),
            None => seq![0u8],
        }
    }

    fn encode_to(&self, dest: &mut Vec<u8>) {
        match self {
            Some(x) => {
                dest.push(1u8);
                x.encode_to(dest);
                assert(dest@ =~= old(dest)@ + self.encoding());
            },
            None => {
                dest.push(0u8);
            },
        }
    }
}

impl<A: Encode, B: Encode> Encode for (A, B) {
    open spec fn encodable(&self) -> bool {
        self.0.encodable() && self.1.encodable()
    }

    open spec fn encoding(&self) -> Seq<u8> {
        self.0.encoding() + self.1.encoding()
    }

    fn encode_to(&self, dest: &mut Vec<u8>) {
        self.0.encode_to(dest);
        self.1.encode_to(dest);
        assert(dest@ =~= old(dest)@ + self.encoding());
    }
}


/// The text of the error that `Compact::<u32>::decode` of
/// `parity_scale_codec` reports on an input `s` that holds no compact `u32`
/// at its front: "Not enough data to fill buffer" when a byte that the mode
/// of the first byte calls for is missing, and "out of range decoding
/// Compact<u32>" when the value read could be held in a shorter mode or the
/// first byte announces more than four bytes.
pub open spec fn compact_error_text(s: Seq<u8>) -> Seq<char> {
    if s.len() == 0 {
        "Not enough data to fill buffer"@
    } else if s[0] % 4 == 1 {
        if s.len() < 2 { "Not enough data to fill buffer"@ } else { "out of range decoding Compact<u32>"@ }
    } else if s[0] % 4 == 2 {
        if s.len() < 4 { "Not enough data to fill buffer"@ } else { "out of range decoding Compact<u32>"@ }
    } else if s[0] == 3 {
        if s.len() < 5 { "Not enough data to fill buffer"@ } else { "out of range decoding Compact<u32>"@ }
    } else {
        "out of range decoding Compact<u32>"@
    }
}

/// Reads a compact `u32` from the front of `input` with `parity_scale_codec`
/// (`Compact::<u32>::decode`). Trusted to succeed exactly when `input` starts
/// with the compact encoding of some value, which it then returns while
/// advancing `input` past those bytes: the crate's decoder reads the mode
/// from the low two bits of the first byte and rejects values that a shorter
/// mode could hold. On failure it gives the text of the crate's error (its
/// `Display`, which for an error without a cause is the description alone),
/// as `compact_error_text` states it; nothing is stated of how far `input`
/// moved.
#[verifier::external_body]
fn compact_u32_from_front(input: &mut &[u8]) -> (out: Result<u32, String>)
    ensures
        match out {
            Ok(v) => starts_with(old(input)@, compact_u32_encoding(v))
                && final(input)@ == old(input)@.skip(compact_u32_encoding(v).len() as int),
            Err(t) => t@ == compact_error_text(old(input)@)
                && forall|v: u32| !starts_with(old(input)@, #[trigger] compact_u32_encoding(v)),
        },
{
    match <parity_scale_codec::Compact<u32> as parity_scale_codec::Decode>::decode(input) {
        Ok(c) => Ok(c.0),
        Err(e) => Err(e.to_string()),
    }
}

/// Decodes a compact `u32` from the front of `input`, advancing `input` past
/// the bytes read.
pub fn decode_compact_u32(input: &mut &[u8]) -> (out: PrimitiveResult<u32>)
    ensures
        match out {
            Ok(v) => starts_with(old(input)@, compact_u32_encoding(v))
                && final(input)@ == old(input)@.skip(compact_u32_encoding(v).len() as int),
            Err(e) => e is CodecError && e.message() == compact_error_text(old(input)@)
                && forall|v: u32| !starts_with(old(input)@, #[trigger] compact_u32_encoding(v)),
        },
{
    match compact_u32_from_front(input) {
        Ok(v) => Ok(v),
        Err(t) => Err(PrimitiveError::CodecError(t)),
    }
}


/// `256^n`.
pub open spec fn pow256(n: nat) -> nat
    decreases n,
{
    if n == 0 {
        1
    } else {
        256 * pow256((n - 1) as nat)
    }
}

proof fn lemma_le_bytes_len(v: nat, n: nat)
    ensures
        le_bytes(v, n).len() == n,
    decreases n,
{
    if n > 0 {
        lemma_le_bytes_len(v / 256, (n - 1) as nat);
    }
}

/// Values below `256^n` are told apart by their `n` little-endian bytes.
proof fn lemma_le_bytes_injective(a: nat, b: nat, n: nat)
    requires
        a < pow256(n),
        b < pow256(n),
        le_bytes(a, n) == le_bytes(b, n),
    ensures
        a == b,
    decreases n,
{
    if n > 0 {
        let p = pow256((n - 1) as nat);
        lemma_le_bytes_head(a, n);
        lemma_le_bytes_head(b, n);
        assert(le_bytes(a, n)[0] == le_bytes(b, n)[0]);
        assert(a / 256 < p) by (nonlinear_arith)
            requires a < 256 * p;
        assert(b / 256 < p) by (nonlinear_arith)
            requires b < 256 * p;
        lemma_le_bytes_injective(a / 256, b / 256, (n - 1) as nat);
        assert(a % 256 == b % 256) by (nonlinear_arith)
            requires ((a % 256) as u8) == ((b % 256) as u8);
        assert(a == 256 * (a / 256) + a % 256) by (nonlinear_arith);
        assert(b == 256 * (b / 256) + b % 256) by (nonlinear_arith);
    }
}

/// The two-bit mode that the first byte of a compact encoding carries.
pub open spec fn compact_mode(v: u32) -> nat {
    if v < 0x40 {
        0
    } else if v < 0x4000 {
        1
    } else if v < 0x4000_0000 {
        2
    } else {
        3
    }
}

proof fn lemma_le_bytes_head(v: nat, n: nat)
    requires
        n > 0,
    ensures
        le_bytes(v, n).len() == n,
        le_bytes(v, n)[0] == (v % 256) as u8,
        le_bytes(v, n).drop_first() == le_bytes(v / 256, (n - 1) as nat),
{
    lemma_le_bytes_len(v, n);
    assert(le_bytes(v, n).drop_first() =~= le_bytes(v / 256, (n - 1) as nat));
}

proof fn lemma_compact_shape(v: u32)
    ensures
        compact_u32_encoding(v).len() == (if v < 0x40 { 1nat } else if v < 0x4000 { 2nat } else if v < 0x4000_0000 { 4nat } else { 5nat }),
        compact_u32_encoding(v)[0] % 4 == compact_mode(v),
{
    if v < 0x40 {
        assert((v * 4) as u8 % 4 == 0);
    } else if v < 0x4000 {
        let x = (v * 4 + 1) as nat;
        lemma_le_bytes_head(x, 2);
        assert(((x % 256) as u8) % 4 == 1) by (nonlinear_arith)
            requires x == v * 4 + 1;
    } else if v < 0x4000_0000 {
        let x = (v * 4 + 2) as nat;
        lemma_le_bytes_head(x, 4);
        assert(((x % 256) as u8) % 4 == 2) by (nonlinear_arith)
            requires x == v * 4 + 2;
    } else {
        lemma_le_bytes_len(v as nat, 4);
    }
}

/// Compact encodings are canonical and self-delimiting: the only value whose
/// encoding begins the encoding of `v` followed by any bytes is `v` itself.
pub proof fn lemma_compact_u32_unique(v: u32, w: u32, rest: Seq<u8>)
    requires
        starts_with(compact_u32_encoding(v) + rest, compact_u32_encoding(w)),
    ensures
        w == v,
{
    let s = compact_u32_encoding(v) + rest;
    let ev = compact_u32_encoding(v);
    let ew = compact_u32_encoding(w);
    lemma_compact_shape(v);
    lemma_compact_shape(w);
    assert(s[0] == ev[0]);
    assert(ew[0] == s.take(ew.len() as int)[0]);
    assert(compact_mode(v) == compact_mode(w));
    assert(ev.len() == ew.len());
    assert(ew =~= ev);
    reveal_with_fuel(pow256, 5);
    assert(pow256(2) == 0x10000);
    assert(pow256(4) == 0x1_0000_0000);
    if v < 0x40 {
    } else if v < 0x4000 {
        lemma_le_bytes_injective((v * 4 + 1) as nat, (w * 4 + 1) as nat, 2);
    } else if v < 0x4000_0000 {
        lemma_le_bytes_injective((v * 4 + 2) as nat, (w * 4 + 2) as nat, 4);
    } else {
        assert(le_bytes(v as nat, 4) =~= ev.drop_first());
        assert(le_bytes(w as nat, 4) =~= ew.drop_first());
        lemma_le_bytes_len(v as nat, 4);
        lemma_le_bytes_injective(v as nat, w as nat, 4);
    }
}

/// Decoding the compact encoding of `v`, followed by any further bytes,
/// gives back `v` and leaves exactly the further bytes: the encoding is a
/// prefix of the input, no other value's encoding is, and skipping it leaves
/// `rest`.
pub proof fn compact_u32_round_trip(v: u32, rest: Seq<u8>)
    ensures
        starts_with(compact_u32_encoding(v) + rest, compact_u32_encoding(v)),
        forall|w: u32| starts_with(compact_u32_encoding(v) + rest, #[trigger] compact_u32_encoding(w)) ==> w == v,
        (compact_u32_encoding(v) + rest).skip(compact_u32_encoding(v).len() as int) == rest,
{
    let s = compact_u32_encoding(v) + rest;
    assert(s.take(compact_u32_encoding(v).len() as int) =~= compact_u32_encoding(v));
    assert(s.skip(compact_u32_encoding(v).len() as int) =~= rest);
    assert forall|w: u32| starts_with(s, #[trigger] compact_u32_encoding(w)) implies w == v by {
        lemma_compact_u32_unique(v, w, rest);
    }
}


/// Splitting a prefix test over a concatenation: `s` begins with `x + y`
/// exactly when it begins with `x` and the rest begins with `y`.
pub proof fn lemma_starts_with_concat(s: Seq<u8>, x: Seq<u8>, y: Seq<u8>)
    ensures
        starts_with(s, x + y) <==> (starts_with(s, x) && starts_with(s.skip(x.len() as int), y)),
{
    if starts_with(s, x + y) {
        assert(s.take(x.len() as int) =~= s.take((x + y).len() as int).take(x.len() as int));
        assert((x + y).take(x.len() as int) =~= x);
        assert(s.skip(x.len() as int).take(y.len() as int) =~= (x + y).skip(x.len() as int));
        assert((x + y).skip(x.len() as int) =~= y);
    }
    if starts_with(s, x) && starts_with(s.skip(x.len() as int), y) {
        assert(s.take((x + y).len() as int) =~= x + y);
    }
}

/// A sequence that begins with a tag byte followed by `x` has that tag
/// first, and after it a sequence that begins with `x`.
pub proof fn lemma_starts_with_tag(s: Seq<u8>, t: u8, x: Seq<u8>)
    requires
        starts_with(s, seq![t] + x),
    ensures
        s.len() > 0,
        s[0] == t,
        starts_with(s.skip(1), x),
{
    lemma_starts_with_concat(s, seq![t], x);
    assert(s.take(1)[0] == s[0]);
}

/// A slice of `b` equal to `x` is a prefix of `b` from its start, and what
/// follows it there is `b` from its end.
pub proof fn lemma_subrange_prefix(b: Seq<u8>, pos: int, end: int, x: Seq<u8>)
    requires
        0 <= pos <= end <= b.len(),
        b.subrange(pos, end) == x,
    ensures
        starts_with(b.skip(pos), x),
        b.skip(pos).skip(x.len() as int) == b.skip(end),
{
    assert(b.skip(pos).take(x.len() as int) =~= x);
    assert(b.skip(pos).skip(x.len() as int) =~= b.skip(end));
}

/// A prefix of `b` from `pos` is the slice of `b` from `pos` to its end.
pub proof fn lemma_prefix_subrange(b: Seq<u8>, pos: int, x: Seq<u8>)
    requires
        0 <= pos <= b.len(),
        starts_with(b.skip(pos), x),
    ensures
        pos + x.len() <= b.len(),
        b.subrange(pos, pos + x.len()) == x,
{
    assert(b.subrange(pos, pos + x.len()) =~= b.skip(pos).take(x.len() as int));
}

/// Two prefixes of the same length of one sequence are equal.
pub proof fn lemma_same_length_prefixes(s: Seq<u8>, x: Seq<u8>, y: Seq<u8>)
    requires
        starts_with(s, x),
        starts_with(s, y),
        x.len() == y.len(),
    ensures
        x == y,
{
}

proof fn lemma_pow256_bound(n: nat)
    requires
        n <= 16,
    ensures
        1 <= pow256(n) <= pow256(16),
        pow256(16) == 0x1_0000_0000_0000_0000_0000_0000_0000_0000,
    decreases 16 - n,
{
    reveal_with_fuel(pow256, 17);
    if n < 16 {
        lemma_pow256_bound(n + 1);
    }
}

/// The error of a failed decoding: the descriptions of its causes, from the
/// innermost outwards, as the SCALE decoder chains them.
pub type DecodeError = Vec<String>;

/// The descriptions of the causes of `e`, innermost first.
pub open spec fn causes(e: DecodeError) -> Seq<Seq<char>> {
    e@.map_values(|t: String| t@)
}

/// An error with the one cause `text`.
pub(crate) fn error_from(text: String) -> (out: DecodeError)
    ensures
        causes(out) == seq![text@],
{
    let mut e: Vec<String> = Vec::new();
    e.push(text);
    assert(causes(e) =~= seq![text@]);
    e
}

/// An error with the one cause `desc`.
pub(crate) fn error_desc(desc: &str) -> (out: DecodeError)
    ensures
        causes(out) == seq![desc@],
{
    error_from(String::from_str(desc))
}

/// The error `e` with the description `desc` put in front of it.
pub fn chained(e: DecodeError, desc: &str) -> (out: DecodeError)
    ensures
        causes(out) == causes(e).push(desc@),
{
    let mut e = e;
    let ghost before = causes(e);
    e.push(String::from_str(desc));
    assert(causes(e) =~= before.push(desc@));
    e
}

/// `n` tab characters.
pub open spec fn tabs(n: nat) -> Seq<char>
    decreases n,
{
    if n == 0 {
        Seq::empty()
    } else {
        tabs((n - 1) as nat).push('\t')
    }
}

/// The text of the causes `c` from the one at depth `i` inwards (depth `0`
/// is the outermost): each description on a line of its own, indented by
/// its depth, and followed by a colon when a deeper cause follows.
pub open spec fn causes_text_from(c: Seq<Seq<char>>, i: nat) -> Seq<char>
    decreases c.len() - i,
{
    if i >= c.len() {
        Seq::empty()
    } else {
        tabs(i) + c[c.len() - 1 - i] + if i + 1 < c.len() {
            ":\n"@ + causes_text_from(c, i + 1)
        } else if i != 0 {
            "\n"@
        } else {
            Seq::empty()
        }
    }
}

/// The text of an error with the causes `c`, as the SCALE decoder's error
/// displays it.
pub open spec fn causes_text(c: Seq<Seq<char>>) -> Seq<char> {
    causes_text_from(c, 0)
}

/// The text of the error `e`.
pub fn error_text(e: &DecodeError) -> (out: String)
    ensures
        out@ == causes_text(causes(*e)),
{
    let ghost c = causes(*e);
    let n = e.len();
    let mut out = String::new();
    let mut i: usize = 0;
    proof {
        reveal_strlit("\t");
        reveal_strlit(":\n");
        reveal_strlit("\n");
    }
    assert(out@ + causes_text_from(c, 0) =~= causes_text(c));
    while i < n
        invariant
            i <= n,
            n == e@.len(),
            c == causes(*e),
            out@ + causes_text_from(c, i as nat) == causes_text(c),
        decreases n - i,
    {
        let ghost start = out@;
        let mut k: usize = 0;
        while k < i
            invariant
                k <= i,
                out@ == start + tabs(k as nat),
            decreases i - k,
        {
            out.append("\t");
            proof {
                reveal_strlit("\t");
            }
            assert(out@ =~= start + tabs((k + 1) as nat));
            k = k + 1;
        }
        out.append(e[n - 1 - i].as_str());
        assert(c[n - 1 - i] == e@[n - 1 - i]@);
        if i + 1 < n {
            out.append(":\n");
        } else if i != 0 {
            out.append("\n");
        }
        proof {
            reveal_strlit(":\n");
            reveal_strlit("\n");
            if i + 1 < n {
                assert(causes_text_from(c, i as nat) == tabs(i as nat) + c[n - 1 - i] + (":\n"@
                    + causes_text_from(c, (i + 1) as nat)));
                assert(start + causes_text_from(c, i as nat) =~= out@ + causes_text_from(c, (i + 1) as nat));
            } else {
                assert(causes_text_from(c, (i + 1) as nat) == Seq::<char>::empty());
                assert(start + causes_text_from(c, i as nat) =~= out@ + causes_text_from(c, (i + 1) as nat));
            }
        }
        i = i + 1;
    }
    assert(causes_text_from(c, n as nat) == Seq::<char>::empty());
    assert(out@ =~= causes_text(c));
    out
}

/// What decoding at `pos` of `bytes` may give: a value whose encoding is the
/// bytes from `pos` to the returned end, or an error, and then the encoding
/// of no value begins at `pos`.
pub open spec fn decoded<T: Encode>(bytes: Seq<u8>, pos: int, out: Result<(T, usize), DecodeError>) -> bool {
    match out {
        Ok((v, end)) => v.encodable() && pos <= end <= bytes.len()
            && bytes.subrange(pos, end as int) == v.encoding(),
        Err(_) => forall|v: T| v.encodable() ==> !starts_with(
            bytes.skip(pos),
            #[trigger] v.encoding(),
        ),
    }
}

/// What decoding `n` values one after another at `pos` of `bytes` may give:
/// `n` values whose encodings, one after another, are the bytes from `pos` to
/// the returned end, or an error, and then the encodings of no `n` values
/// begin at `pos`.
pub open spec fn items_decoded<T: Encode>(
    bytes: Seq<u8>,
    pos: int,
    n: nat,
    out: Result<(Vec<T>, usize), DecodeError>,
) -> bool {
    match out {
        Ok((v, end)) => v@.len() == n
            && (forall|i: int| 0 <= i < v@.len() ==> (#[trigger] v@[i]).encodable())
            && pos <= end <= bytes.len() && bytes.subrange(pos, end as int) == encode_all(v@),
        Err(_) => forall|w: Seq<T>|
            w.len() == n && (forall|i: int| 0 <= i < w.len() ==> (#[trigger] w[i]).encodable())
                ==> !starts_with(bytes.skip(pos), #[trigger] encode_all(w)),
    }
}

/// Whether the encoding of some value of type `T` begins `s`.
pub open spec fn found<T: Encode>(s: Seq<u8>) -> bool {
    exists|v: T| v.encodable() && starts_with(s, #[trigger] v.encoding())
}

/// The length of the encoding of a value of type `T` that begins `s`.
pub open spec fn found_len<T: Encode>(s: Seq<u8>) -> int {
    (choose|v: T| v.encodable() && starts_with(s, #[trigger] v.encoding())).encoding().len() as int
}

/// Where decoding a value of type `T` at `pos` of `bytes` ends, or the
/// causes of its error.
pub open spec fn value_step<T: Decode>(bytes: Seq<u8>, pos: int) -> Result<int, Seq<Seq<char>>> {
    if found::<T>(bytes.skip(pos)) {
        Ok(pos + found_len::<T>(bytes.skip(pos)))
    } else {
        Err(T::decode_error(bytes, pos))
    }
}

/// Where decoding a field of type `T` at `pos` of `bytes` ends, or the causes
/// of its error, with the description `desc` of the field put in front.
pub open spec fn field_step<T: Decode>(bytes: Seq<u8>, pos: int, desc: Seq<char>) -> Result<int, Seq<Seq<char>>> {
    match value_step::<T>(bytes, pos) {
        Ok(e) => Ok(e),
        Err(c) => Err(c.push(desc)),
    }
}

/// Decoding the next field, of type `B`, after the fields decoded by `prev`:
/// an error of `prev` stands, else the field is decoded where `prev` ended.
pub open spec fn extend_step<B: Decode>(
    bytes: Seq<u8>,
    prev: Result<int, Seq<Seq<char>>>,
    desc: Seq<char>,
) -> Result<int, Seq<Seq<char>>> {
    match prev {
        Err(c) => Err(c),
        Ok(q) => field_step::<B>(bytes, q, desc),
    }
}

/// The causes of the error of a decoding step (none when it succeeded).
pub open spec fn step_error(r: Result<int, Seq<Seq<char>>>) -> Seq<Seq<char>> {
    match r {
        Err(c) => c,
        Ok(_) => Seq::empty(),
    }
}

/// Whether the outcome `out` of a decoding is the step `r`: it ends where
/// `r` does, or fails with the causes that `r` gives.
pub open spec fn follows<T>(out: Result<(T, usize), DecodeError>, r: Result<int, Seq<Seq<char>>>) -> bool {
    match out {
        Ok((_, end)) => r == Ok::<int, Seq<Seq<char>>>(end as int),
        Err(e) => r == Err::<int, Seq<Seq<char>>>(causes(e)),
    }
}

/// Decoding `n` values one after another at `pos`, each where the previous
/// one ended; the first that fails gives the error.
pub open spec fn items_step<T: Decode>(bytes: Seq<u8>, pos: int, n: nat) -> Result<int, Seq<Seq<char>>>
    decreases n,
{
    if n == 0 {
        Ok(pos)
    } else {
        match items_step::<T>(bytes, pos, (n - 1) as nat) {
            Err(c) => Err(c),
            Ok(q) => value_step::<T>(bytes, q),
        }
    }
}

/// Decoding the `n` elements of a sequence at `pos`: for a fixed-width type,
/// the remaining bytes are first checked to hold all of them; the elements
/// are then decoded one after another.
pub open spec fn items_result<T: Decode>(bytes: Seq<u8>, pos: int, n: nat) -> Result<int, Seq<Seq<char>>> {
    match T::width() {
        Some(w) => if n * w > usize::MAX {
            Err(seq!["Item is too big and cannot be allocated"@])
        } else if bytes.len() - pos < n * w {
            Err(seq!["Not enough data to decode vector"@])
        } else {
            items_step::<T>(bytes, pos, n)
        },
        None => items_step::<T>(bytes, pos, n),
    }
}

/// A value of type `T` whose encoding begins `s` settles `found` and
/// `found_len`.
pub proof fn lemma_found<T: Decode>(s: Seq<u8>, x: T)
    requires
        x.encodable(),
        starts_with(s, x.encoding()),
    ensures
        found::<T>(s),
        found_len::<T>(s) == x.encoding().len(),
{
    assert(found::<T>(s));
    let w = choose|v: T| v.encodable() && starts_with(s, #[trigger] v.encoding());
    T::lemma_prefix_unique(x, w, s);
}

/// Once decoding a run of values has failed, decoding more of them fails
/// with the same error.
proof fn lemma_items_step_err<T: Decode>(bytes: Seq<u8>, pos: int, k: nat, n: nat)
    requires
        k <= n,
        items_step::<T>(bytes, pos, k) is Err,
    ensures
        items_step::<T>(bytes, pos, n) == items_step::<T>(bytes, pos, k),
    decreases n - k,
{
    if k < n {
        lemma_items_step_err::<T>(bytes, pos, k, (n - 1) as nat);
    }
}

/// A value that can be read back from its SCALE encoding.
pub trait Decode: Encode + Sized {
    /// The encoding is self-delimiting: when the encodings of two values both
    /// begin `s`, they are the same bytes.
    proof fn lemma_prefix_unique(a: Self, b: Self, s: Seq<u8>)
        requires
            a.encodable(),
            b.encodable(),
            starts_with(s, a.encoding()),
            starts_with(s, b.encoding()),
        ensures
            a.encoding() == b.encoding(),
    ;

    /// The causes of the error that decoding at `pos` of `bytes` reports
    /// when no value's encoding begins there, innermost first.
    spec fn decode_error(bytes: Seq<u8>, pos: int) -> Seq<Seq<char>>;

    /// The number of bytes that the encoding of every value takes, for the
    /// fixed-width integer types, whose sequences are read in bulk; `None`
    /// for the other types, whose sequences are read value by value.
    spec fn width() -> Option<nat>;

    /// Decodes a value from `bytes` at `pos`, giving it and the position just
    /// after its encoding, or the error that the SCALE decoder of the type
    /// reports.
    fn decode_at(bytes: &[u8], pos: usize) -> (out: Result<(Self, usize), DecodeError>)
        requires
            pos <= bytes@.len(),
        ensures
            decoded(bytes@, pos as int, out),
            match out {
                Ok(_) => true,
                Err(e) => causes(e) == Self::decode_error(bytes@, pos as int),
            },
    ;

    /// The width that `width` states, for use when decoding sequences.
    fn fixed_width() -> (out: Option<usize>)
        ensures
            match out {
                Some(w) => Self::width() == Some(w as nat) && 1 <= w <= 16
                    && forall|v: Self| v.encodable() ==> (#[trigger] v.encoding()).len() == w,
                None => Self::width() is None,
            },
    ;

    /// Decodes a value from the front of `input`, advancing `input` past it.
    /// A failure carries the text of the decoder's error.
    fn decode(input: &mut &[u8]) -> (out: PrimitiveResult<Self>)
        ensures
            match out {
                Ok(v) => v.encodable() && starts_with(old(input)@, v.encoding())
                    && final(input)@ == old(input)@.skip(v.encoding().len() as int),
                Err(e) => e is CodecError && e.message() == causes_text(Self::decode_error(old(input)@, 0))
                    && forall|v: Self| v.encodable() ==> !starts_with(
                        old(input)@,
                        #[trigger] v.encoding(),
                    ),
            },
    {
        let bytes: &[u8] = *input;
        assert(bytes@.skip(0) =~= bytes@);
        match Self::decode_at(bytes, 0) {
            Ok((v, end)) => {
                proof {
                    lemma_subrange_prefix(bytes@, 0, end as int, v.encoding());
                }
                *input = &bytes[end..bytes.len()];
                assert(input@ =~= bytes@.skip(end as int));
                Ok(v)
            },
            Err(e) => Err(PrimitiveError::CodecError(error_text(&e))),
        }
    }
}

/// Decodes `n` values one after another, stopping at the first that fails.
fn decode_each<T: Decode>(bytes: &[u8], pos: usize, n: u32) -> (out: Result<(Vec<T>, usize), DecodeError>)
    requires
        pos <= bytes@.len(),
    ensures
        items_decoded(bytes@, pos as int, n as nat, out),
        follows(out, items_step::<T>(bytes@, pos as int, n as nat)),
{
    let mut v: Vec<T> = Vec::new();
    let mut p: usize = pos;
    let mut i: u32 = 0;
    assert(bytes@.subrange(pos as int, pos as int) =~= encode_all(Seq::<T>::empty()));
    while i < n
        invariant
            pos <= p <= bytes@.len(),
            bytes@.len() == bytes.len(),
            v@.len() == i,
            i <= n,
            forall|k: int| 0 <= k < v@.len() ==> (#[trigger] v@[k]).encodable(),
            bytes@.subrange(pos as int, p as int) == encode_all(v@),
            items_step::<T>(bytes@, pos as int, i as nat) == Ok::<int, Seq<Seq<char>>>(p as int),
        decreases n - i,
    {
        match T::decode_at(bytes, p) {
            Ok((x, e)) => {
                let ghost before = v@;
                v.push(x);
                proof {
                    assert(v@.drop_last() =~= before);
                    assert(bytes@.subrange(pos as int, e as int) =~= bytes@.subrange(pos as int, p as int)
                        + bytes@.subrange(p as int, e as int));
                    lemma_subrange_prefix(bytes@, p as int, e as int, x.encoding());
                    lemma_found::<T>(bytes@.skip(p as int), x);
                    assert(items_step::<T>(bytes@, pos as int, (i + 1) as nat) == value_step::<T>(bytes@, p as int));
                }
                p = e;
                i = i + 1;
            },
            Err(err) => {
                proof {
                    let ev = encode_all(v@);
                    let r = bytes@.skip(pos as int);
                    lemma_subrange_prefix(bytes@, pos as int, p as int, ev);
                    assert forall|w: Seq<T>|
                        w.len() == n && (forall|k: int| 0 <= k < w.len() ==> (#[trigger] w[k]).encodable())
                        implies !starts_with(r, #[trigger] encode_all(w)) by {
                        if starts_with(r, encode_all(w)) {
                            lemma_encode_all_element(w, i as int, r);
                            let wt = w.take(i as int);
                            assert(forall|k: int| 0 <= k < wt.len() ==> wt[k] == w[k]);
                            lemma_encode_all_unique(v@, wt, r);
                            assert(w[i as int].encodable());
                        }
                    }
                    assert(!found::<T>(bytes@.skip(p as int)));
                    assert(items_step::<T>(bytes@, pos as int, (i + 1) as nat) == value_step::<T>(bytes@, p as int));
                    lemma_items_step_err::<T>(bytes@, pos as int, (i + 1) as nat, n as nat);
                }
                return Err(err);
            },
        }
    }
    Ok((v, p))
}

/// The encodings of values that each take `width` bytes take `width` bytes
/// apiece.
proof fn lemma_encode_all_fixed_len<T: Encode>(w: Seq<T>, width: nat)
    requires
        forall|i: int| 0 <= i < w.len() ==> (#[trigger] w[i]).encoding().len() == width,
    ensures
        encode_all(w).len() == w.len() * width,
    decreases w.len(),
{
    if w.len() > 0 {
        let wa = w.drop_last();
        assert(forall|i: int| 0 <= i < wa.len() ==> wa[i] == w[i]);
        lemma_encode_all_fixed_len(wa, width);
        assert(w.last().encoding().len() == width);
        assert(wa.len() * width + width == w.len() * width) by (nonlinear_arith)
            requires wa.len() + 1 == w.len();
    }
}

/// How a sequence of a fixed-width integer type decodes its elements: it
/// first checks that the remaining bytes hold all of them, and reports
/// "Not enough data to decode vector" before reading any when they do not.
fn decode_fixed_items<T: Decode>(bytes: &[u8], pos: usize, n: u32, width: usize) -> (out: Result<(Vec<T>, usize), DecodeError>)
    requires
        pos <= bytes@.len(),
        T::width() == Some(width as nat),
        1 <= width <= 16,
        forall|v: T| v.encodable() ==> (#[trigger] v.encoding()).len() == width,
    ensures
        items_decoded(bytes@, pos as int, n as nat, out),
        follows(out, items_result::<T>(bytes@, pos as int, n as nat)),
{
    assert(n as u128 * width as u128 <= 0xffff_ffff * 16) by (nonlinear_arith)
        requires n <= 0xffff_ffffu32, width <= 16;
    let byte_len: u128 = n as u128 * width as u128;
    let remaining: usize = bytes.len() - pos;
    if byte_len > usize::MAX as u128 {
        proof { lemma_no_fixed_items::<T>(bytes@.skip(pos as int), n as nat, width as nat); }
        return Err(error_desc("Item is too big and cannot be allocated"));
    }
    if (remaining as u128) < byte_len {
        proof { lemma_no_fixed_items::<T>(bytes@.skip(pos as int), n as nat, width as nat); }
        return Err(error_desc("Not enough data to decode vector"));
    }
    decode_each(bytes, pos, n)
}

/// No `n` values of width `width` begin `s` when `s` is shorter than they
/// are together.
proof fn lemma_no_fixed_items<T: Encode>(s: Seq<u8>, n: nat, width: nat)
    requires
        s.len() < n * width,
        forall|v: T| v.encodable() ==> (#[trigger] v.encoding()).len() == width,
    ensures
        forall|w: Seq<T>|
            w.len() == n && (forall|i: int| 0 <= i < w.len() ==> (#[trigger] w[i]).encodable())
                ==> !starts_with(s, #[trigger] encode_all(w)),
{
    assert forall|w: Seq<T>|
        w.len() == n && (forall|i: int| 0 <= i < w.len() ==> (#[trigger] w[i]).encodable())
        implies !starts_with(s, #[trigger] encode_all(w)) by {
        assert forall|i: int| 0 <= i < w.len() implies (#[trigger] w[i]).encoding().len() == width by {
            assert(w[i].encodable());
        }
        lemma_encode_all_fixed_len(w, width);
    }
}

/// Decodes a value at `pos` as a field; a failure has `desc`, the
/// description of the field, put in front of it.
pub fn decode_field<T: Decode>(bytes: &[u8], pos: usize, desc: &str) -> (out: Result<(T, usize), DecodeError>)
    requires
        pos <= bytes@.len(),
    ensures
        decoded(bytes@, pos as int, out),
        follows(out, field_step::<T>(bytes@, pos as int, desc@)),
{
    match T::decode_at(bytes, pos) {
        Ok((x, end)) => {
            proof {
                lemma_subrange_prefix(bytes@, pos as int, end as int, x.encoding());
                lemma_found::<T>(bytes@.skip(pos as int), x);
            }
            Ok((x, end))
        },
        Err(e) => {
            assert(!found::<T>(bytes@.skip(pos as int)));
            Err(chained(e, desc))
        },
    }
}

/// Extends the decoding `prefix` of the first fields of a value, made at
/// `pos` and following the step `r`, by the next field, of type `B`: a
/// failure of `prefix` is passed on as it is, and a failure of the field has
/// `desc` put in front of it.
pub(crate) fn decode_extend<P: Decode, B: Decode>(
    bytes: &[u8],
    pos: usize,
    prefix: Result<(P, usize), DecodeError>,
    Ghost(r): Ghost<Result<int, Seq<Seq<char>>>>,
    desc: &str,
) -> (out: Result<((P, B), usize), DecodeError>)
    requires
        pos <= bytes@.len(),
        decoded(bytes@, pos as int, prefix),
        follows(prefix, r),
    ensures
        decoded(bytes@, pos as int, out),
        follows(out, extend_step::<B>(bytes@, r, desc@)),
{
    let ghost s = bytes@.skip(pos as int);
    match prefix {
        Err(e) => {
            assert forall|t: (P, B)| t.encodable() implies !starts_with(s, #[trigger] t.encoding()) by {
                lemma_starts_with_concat(s, t.0.encoding(), t.1.encoding());
            }
            Err(e)
        },
        Ok((x, p1)) => {
            proof {
                lemma_subrange_prefix(bytes@, pos as int, p1 as int, x.encoding());
            }
            match decode_field::<B>(bytes, p1, desc) {
                Ok((y, p2)) => {
                    assert(bytes@.subrange(pos as int, p2 as int) =~= bytes@.subrange(pos as int, p1 as int)
                        + bytes@.subrange(p1 as int, p2 as int));
                    Ok(((x, y), p2))
                },
                Err(e) => {
                    assert forall|t: (P, B)| t.encodable() implies !starts_with(s, #[trigger] t.encoding()) by {
                        lemma_starts_with_concat(s, t.0.encoding(), t.1.encoding());
                        if starts_with(s, t.encoding()) {
                            P::lemma_prefix_unique(x, t.0, s);
                        }
                    }
                    Err(e)
                },
            }
        },
    }
}

/// `u8::decode` of `parity_scale_codec` on a byte slice: takes the first
/// byte, and fails, with the text of its error, when there is none.
#[verifier::external_body]
pub(crate) fn scale_u8(input: &mut &[u8]) -> (out: Result<u8, String>)
    ensures
        match out {
            Ok(v) => old(input)@.len() >= 1 && old(input)@[0] == v,
            Err(t) => old(input)@.len() == 0 && t@ == "Not enough data to fill buffer"@,
        },
{
    match <u8 as parity_scale_codec::Decode>::decode(input) {
        Ok(v) => Ok(v),
        Err(e) => Err(e.to_string()),
    }
}

/// `bool::decode` of `parity_scale_codec` on a byte slice: the first byte
/// must be `0` (false) or `1` (true); it fails, with the text of its error,
/// when there is no byte or it is another.
#[verifier::external_body]
fn scale_bool(input: &mut &[u8]) -> (out: Result<bool, String>)
    ensures
        match out {
            Ok(v) => old(input)@.len() >= 1 && old(input)@[0] == (if v { 1u8 } else { 0u8 }),
            Err(t) => (old(input)@.len() == 0 && t@ == "Not enough data to fill buffer"@)
                || (old(input)@.len() > 0 && old(input)@[0] > 1 && t@ == "Invalid boolean representation"@),
        },
{
    match <bool as parity_scale_codec::Decode>::decode(input) {
        Ok(v) => Ok(v),
        Err(e) => Err(e.to_string()),
    }
}

/// `u16::decode` of `parity_scale_codec` on a byte slice: the first 2
/// bytes, little endian; it fails, with the text of its error, when fewer
/// remain.
#[verifier::external_body]
fn scale_u16(input: &mut &[u8]) -> (out: Result<u16, String>)
    ensures
        match out {
            Ok(v) => old(input)@.len() >= 2 && old(input)@.take(2) == le_bytes(v as nat, 2),
            Err(t) => old(input)@.len() < 2 && t@ == "Not enough data to fill buffer"@,
        },
{
    match <u16 as parity_scale_codec::Decode>::decode(input) {
        Ok(v) => Ok(v),
        Err(e) => Err(e.to_string()),
    }
}

/// `u32::decode` of `parity_scale_codec` on a byte slice: the first 4
/// bytes, little endian; it fails, with the text of its error, when fewer
/// remain.
#[verifier::external_body]
fn scale_u32(input: &mut &[u8]) -> (out: Result<u32, String>)
    ensures
        match out {
            Ok(v) => old(input)@.len() >= 4 && old(input)@.take(4) == le_bytes(v as nat, 4),
            Err(t) => old(input)@.len() < 4 && t@ == "Not enough data to fill buffer"@,
        },
{
    match <u32 as parity_scale_codec::Decode>::decode(input) {
        Ok(v) => Ok(v),
        Err(e) => Err(e.to_string()),
    }
}

/// `u64::decode` of `parity_scale_codec` on a byte slice: the first 8
/// bytes, little endian; it fails, with the text of its error, when fewer
/// remain.
#[verifier::external_body]
fn scale_u64(input: &mut &[u8]) -> (out: Result<u64, String>)
    ensures
        match out {
            Ok(v) => old(input)@.len() >= 8 && old(input)@.take(8) == le_bytes(v as nat, 8),
            Err(t) => old(input)@.len() < 8 && t@ == "Not enough data to fill buffer"@,
        },
{
    match <u64 as parity_scale_codec::Decode>::decode(input) {
        Ok(v) => Ok(v),
        Err(e) => Err(e.to_string()),
    }
}

/// `u128::decode` of `parity_scale_codec` on a byte slice: the first 16
/// bytes, little endian; it fails, with the text of its error, when fewer
/// remain.
#[verifier::external_body]
fn scale_u128(input: &mut &[u8]) -> (out: Result<u128, String>)
    ensures
        match out {
            Ok(v) => old(input)@.len() >= 16 && old(input)@.take(16) == le_bytes(v as nat, 16),
            Err(t) => old(input)@.len() < 16 && t@ == "Not enough data to fill buffer"@,
        },
{
    match <u128 as parity_scale_codec::Decode>::decode(input) {
        Ok(v) => Ok(v),
        Err(e) => Err(e.to_string()),
    }
}

/// `<[u8; N]>::decode` of `parity_scale_codec` on a byte slice: the first
/// `N` bytes; it fails, with the text of its error, when fewer remain.
#[verifier::external_body]
fn scale_bytes<const N: usize>(input: &mut &[u8]) -> (out: Result<[u8; N], String>)
    ensures
        match out {
            Ok(a) => old(input)@.len() >= N && old(input)@.take(N as int) == a@,
            Err(t) => old(input)@.len() < N && t@ == "Not enough data to fill buffer"@,
        },
{
    match <[u8; N] as parity_scale_codec::Decode>::decode(input) {
        Ok(a) => Ok(a),
        Err(e) => Err(e.to_string()),
    }
}

/// Decoding inverts encoding: decoding the encoding of `v` followed by any
/// further bytes finds a value with the same encoding as `v` and stops
/// right after it. (Every value whose encoding begins the input has the
/// encoding of `v`.)
pub proof fn decode_finds_the_encoded_value<T: Decode>(v: T, w: T, rest: Seq<u8>)
    requires
        v.encodable(),
        w.encodable(),
        starts_with(v.encoding() + rest, w.encoding()),
    ensures
        w.encoding() == v.encoding(),
        (v.encoding() + rest).skip(w.encoding().len() as int) == rest,
{
    let s = v.encoding() + rest;
    assert(s.take(v.encoding().len() as int) =~= v.encoding());
    T::lemma_prefix_unique(v, w, s);
    assert(s.skip(v.encoding().len() as int) =~= rest);
}

/// A value that its encoding determines: two encodable values with the same
/// encoding are the same value.
pub trait Canonical: Decode {
    proof fn lemma_encoding_injective(a: Self, b: Self)
        requires
            a.encodable(),
            b.encodable(),
            a.encoding() == b.encoding(),
        ensures
            a == b,
    ;
}

/// Decoding gives back the very value that was encoded: whatever value of
/// a canonical type has its encoding at the front of the encoding of `v`
/// followed by any further bytes is `v` itself, and after it come exactly the
/// further bytes.
pub proof fn decode_gives_back_the_value<T: Canonical>(v: T, w: T, rest: Seq<u8>)
    requires
        v.encodable(),
        w.encodable(),
        starts_with(v.encoding() + rest, w.encoding()),
    ensures
        w == v,
        (v.encoding() + rest).skip(w.encoding().len() as int) == rest,
{
    decode_finds_the_encoded_value(v, w, rest);
    T::lemma_encoding_injective(w, v);
}

/// The same for a sequence of canonical values: what is decoded from the
/// encoding of `v` followed by any further bytes holds the elements of `v`.
pub proof fn decode_gives_back_the_elements<T: Canonical>(v: Vec<T>, w: Vec<T>, rest: Seq<u8>)
    requires
        v.encodable(),
        w.encodable(),
        starts_with(v.encoding() + rest, w.encoding()),
    ensures
        w@ == v@,
        (v.encoding() + rest).skip(w.encoding().len() as int) == rest,
{
    decode_finds_the_encoded_value(v, w, rest);
    let cv = compact_u32_encoding(v@.len() as u32);
    let cw = compact_u32_encoding(w@.len() as u32);
    assert(cw + encode_all(w@) == cv + encode_all(v@));
    assert((cv + encode_all(v@)).take(cw.len() as int) =~= cw);
    lemma_compact_u32_unique(v@.len() as u32, w@.len() as u32, encode_all(v@));
    assert(encode_all(w@) =~= (cw + encode_all(w@)).skip(cw.len() as int));
    assert(encode_all(v@) =~= (cv + encode_all(v@)).skip(cv.len() as int));
    lemma_encode_all_injective(v@, w@);
}

/// Equally long sequences of canonical values with the same encodings are
/// the same sequence.
proof fn lemma_encode_all_injective<T: Canonical>(x: Seq<T>, y: Seq<T>)
    requires
        x.len() == y.len(),
        forall|i: int| 0 <= i < x.len() ==> (#[trigger] x[i]).encodable(),
        forall|i: int| 0 <= i < y.len() ==> (#[trigger] y[i]).encodable(),
        encode_all(x) == encode_all(y),
    ensures
        x == y,
    decreases x.len(),
{
    if x.len() == 0 {
        assert(x =~= y);
    } else {
        let xa = x.drop_last();
        let ya = y.drop_last();
        assert(forall|i: int| 0 <= i < xa.len() ==> xa[i] == x[i]);
        assert(forall|i: int| 0 <= i < ya.len() ==> ya[i] == y[i]);
        let s = encode_all(x);
        assert(s.take(encode_all(xa).len() as int) =~= encode_all(xa));
        assert(s.take(encode_all(ya).len() as int) =~= encode_all(ya));
        lemma_encode_all_unique(xa, ya, s);
        lemma_encode_all_injective(xa, ya);
        assert(x.last().encoding() =~= s.skip(encode_all(xa).len() as int));
        assert(y.last().encoding() =~= s.skip(encode_all(ya).len() as int));
        T::lemma_encoding_injective(x.last(), y.last());
        assert(x =~= xa.push(x.last()));
        assert(y =~= ya.push(y.last()));
    }
}

impl Canonical for u8 {
    proof fn lemma_encoding_injective(a: Self, b: Self) {
        assert(a.encoding()[0] == a);
        assert(b.encoding()[0] == b);
    }
}

impl Canonical for bool {
    proof fn lemma_encoding_injective(a: Self, b: Self) {
        assert(a.encoding()[0] == (if a { 1u8 } else { 0u8 }));
        assert(b.encoding()[0] == (if b { 1u8 } else { 0u8 }));
    }
}

impl Canonical for u16 {
    proof fn lemma_encoding_injective(a: Self, b: Self) {
        reveal_with_fuel(pow256, 3);
        lemma_le_bytes_injective(a as nat, b as nat, 2);
    }
}

impl Canonical for u32 {
    proof fn lemma_encoding_injective(a: Self, b: Self) {
        reveal_with_fuel(pow256, 5);
        lemma_le_bytes_injective(a as nat, b as nat, 4);
    }
}

impl Canonical for u64 {
    proof fn lemma_encoding_injective(a: Self, b: Self) {
        reveal_with_fuel(pow256, 9);
        lemma_le_bytes_injective(a as nat, b as nat, 8);
    }
}

impl Canonical for u128 {
    proof fn lemma_encoding_injective(a: Self, b: Self) {
        lemma_pow256_bound(0);
        lemma_le_bytes_injective(a as nat, b as nat, 16);
    }
}

impl<const N: usize> Canonical for [u8; N] {
    proof fn lemma_encoding_injective(a: Self, b: Self) {
        assert(a.encoding() == a@);
        assert(b.encoding() == b@);
        assert(a =~= b);
    }
}

impl<T: Canonical> Canonical for Option<T> {
    proof fn lemma_encoding_injective(a: Self, b: Self) {
        match (a, b) {
            (Some(x), Some(y)) => {
                assert(x.encoding() =~= a.encoding().skip(1));
                assert(y.encoding() =~= b.encoding().skip(1));
                T::lemma_encoding_injective(x, y);
            },
            (Some(x), None) => {
                assert(a.encoding()[0] == 1u8);
                assert(b.encoding()[0] == 0u8);
            },
            (None, Some(y)) => {
                assert(a.encoding()[0] == 0u8);
                assert(b.encoding()[0] == 1u8);
            },
            (None, None) => {},
        }
    }
}

impl<A: Canonical, B: Canonical> Canonical for (A, B) {
    proof fn lemma_encoding_injective(a: Self, b: Self) {
        let s = a.encoding();
        assert(s.take(a.0.encoding().len() as int) =~= a.0.encoding());
        assert(s.take(b.0.encoding().len() as int) =~= b.0.encoding());
        A::lemma_prefix_unique(a.0, b.0, s);
        A::lemma_encoding_injective(a.0, b.0);
        assert(a.1.encoding() =~= s.skip(a.0.encoding().len() as int));
        assert(b.1.encoding() =~= s.skip(b.0.encoding().len() as int));
        B::lemma_encoding_injective(a.1, b.1);
    }
}

impl Decode for u8 {
    proof fn lemma_prefix_unique(a: Self, b: Self, s: Seq<u8>) {
    }

    open spec fn decode_error(bytes: Seq<u8>, pos: int) -> Seq<Seq<char>> {
        seq!["Not enough data to fill buffer"@]
    }

    open spec fn width() -> Option<nat> {
        Some(1)
    }

    fn decode_at(bytes: &[u8], pos: usize) -> (out: Result<(Self, usize), DecodeError>) {
        let mut input: &[u8] = &bytes[pos..bytes.len()];
        assert(input@ =~= bytes@.skip(pos as int));
        match scale_u8(&mut input) {
            Ok(v) => {
                assert(bytes@.subrange(pos as int, pos + 1) =~= seq![v]);
                Ok((v, pos + 1))
            },
            Err(t) => Err(error_from(t)),
        }
    }

    fn fixed_width() -> (out: Option<usize>) {
        assert forall|v: u8| v.encodable() implies (#[trigger] v.encoding()).len() == 1 by {}
        Some(1)
    }
}

impl Decode for bool {
    proof fn lemma_prefix_unique(a: Self, b: Self, s: Seq<u8>) {
    }

    open spec fn decode_error(bytes: Seq<u8>, pos: int) -> Seq<Seq<char>> {
        if pos >= bytes.len() {
            seq!["Not enough data to fill buffer"@]
        } else {
            seq!["Invalid boolean representation"@]
        }
    }

    fn decode_at(bytes: &[u8], pos: usize) -> (out: Result<(Self, usize), DecodeError>) {
        let mut input: &[u8] = &bytes[pos..bytes.len()];
        assert(input@ =~= bytes@.skip(pos as int));
        match scale_bool(&mut input) {
            Ok(v) => {
                assert(bytes@.subrange(pos as int, pos + 1) =~= v.encoding());
                Ok((v, pos + 1))
            },
            Err(t) => {
                assert forall|v: bool| v.encodable() implies !starts_with(
                    bytes@.skip(pos as int),
                    #[trigger] v.encoding(),
                ) by {
                    if starts_with(bytes@.skip(pos as int), v.encoding()) {
                        assert(bytes@.skip(pos as int)[0] == v.encoding()[0]);
                    }
                }
                Err(error_from(t))
            },
        }
    }

    open spec fn width() -> Option<nat> {
        None
    }

    fn fixed_width() -> (out: Option<usize>) {
        None
    }
}

impl Decode for u16 {
    proof fn lemma_prefix_unique(a: Self, b: Self, s: Seq<u8>) {
        lemma_le_bytes_len(a as nat, 2);
        lemma_le_bytes_len(b as nat, 2);
    }

    open spec fn decode_error(bytes: Seq<u8>, pos: int) -> Seq<Seq<char>> {
        seq!["Not enough data to fill buffer"@]
    }

    open spec fn width() -> Option<nat> {
        Some(2)
    }

    fn decode_at(bytes: &[u8], pos: usize) -> (out: Result<(Self, usize), DecodeError>) {
        let mut input: &[u8] = &bytes[pos..bytes.len()];
        assert(input@ =~= bytes@.skip(pos as int));
        match scale_u16(&mut input) {
            Ok(v) => {
                assert(bytes@.subrange(pos as int, pos + 2) =~= bytes@.skip(pos as int).take(2));
                Ok((v, pos + 2))
            },
            Err(t) => {
                assert forall|v: u16| v.encodable() implies !starts_with(
                    bytes@.skip(pos as int),
                    #[trigger] v.encoding(),
                ) by {
                    lemma_le_bytes_len(v as nat, 2);
                }
                Err(error_from(t))
            },
        }
    }

    fn fixed_width() -> (out: Option<usize>) {
        assert forall|v: u16| v.encodable() implies (#[trigger] v.encoding()).len() == 2 by {
            lemma_le_bytes_len(v as nat, 2);
        }
        Some(2)
    }
}

impl Decode for u32 {
    proof fn lemma_prefix_unique(a: Self, b: Self, s: Seq<u8>) {
        lemma_le_bytes_len(a as nat, 4);
        lemma_le_bytes_len(b as nat, 4);
    }

    open spec fn decode_error(bytes: Seq<u8>, pos: int) -> Seq<Seq<char>> {
        seq!["Not enough data to fill buffer"@]
    }

    open spec fn width() -> Option<nat> {
        Some(4)
    }

    fn decode_at(bytes: &[u8], pos: usize) -> (out: Result<(Self, usize), DecodeError>) {
        let mut input: &[u8] = &bytes[pos..bytes.len()];
        assert(input@ =~= bytes@.skip(pos as int));
        match scale_u32(&mut input) {
            Ok(v) => {
                assert(bytes@.subrange(pos as int, pos + 4) =~= bytes@.skip(pos as int).take(4));
                Ok((v, pos + 4))
            },
            Err(t) => {
                assert forall|v: u32| v.encodable() implies !starts_with(
                    bytes@.skip(pos as int),
                    #[trigger] v.encoding(),
                ) by {
                    lemma_le_bytes_len(v as nat, 4);
                }
                Err(error_from(t))
            },
        }
    }

    fn fixed_width() -> (out: Option<usize>) {
        assert forall|v: u32| v.encodable() implies (#[trigger] v.encoding()).len() == 4 by {
            lemma_le_bytes_len(v as nat, 4);
        }
        Some(4)
    }
}

impl Decode for u64 {
    proof fn lemma_prefix_unique(a: Self, b: Self, s: Seq<u8>) {
        lemma_le_bytes_len(a as nat, 8);
        lemma_le_bytes_len(b as nat, 8);
    }

    open spec fn decode_error(bytes: Seq<u8>, pos: int) -> Seq<Seq<char>> {
        seq!["Not enough data to fill buffer"@]
    }

    open spec fn width() -> Option<nat> {
        Some(8)
    }

    fn decode_at(bytes: &[u8], pos: usize) -> (out: Result<(Self, usize), DecodeError>) {
        let mut input: &[u8] = &bytes[pos..bytes.len()];
        assert(input@ =~= bytes@.skip(pos as int));
        match scale_u64(&mut input) {
            Ok(v) => {
                assert(bytes@.subrange(pos as int, pos + 8) =~= bytes@.skip(pos as int).take(8));
                Ok((v, pos + 8))
            },
            Err(t) => {
                assert forall|v: u64| v.encodable() implies !starts_with(
                    bytes@.skip(pos as int),
                    #[trigger] v.encoding(),
                ) by {
                    lemma_le_bytes_len(v as nat, 8);
                }
                Err(error_from(t))
            },
        }
    }

    fn fixed_width() -> (out: Option<usize>) {
        assert forall|v: u64| v.encodable() implies (#[trigger] v.encoding()).len() == 8 by {
            lemma_le_bytes_len(v as nat, 8);
        }
        Some(8)
    }
}

impl Decode for u128 {
    proof fn lemma_prefix_unique(a: Self, b: Self, s: Seq<u8>) {
        lemma_le_bytes_len(a as nat, 16);
        lemma_le_bytes_len(b as nat, 16);
    }

    open spec fn decode_error(bytes: Seq<u8>, pos: int) -> Seq<Seq<char>> {
        seq!["Not enough data to fill buffer"@]
    }

    open spec fn width() -> Option<nat> {
        Some(16)
    }

    fn decode_at(bytes: &[u8], pos: usize) -> (out: Result<(Self, usize), DecodeError>) {
        let mut input: &[u8] = &bytes[pos..bytes.len()];
        assert(input@ =~= bytes@.skip(pos as int));
        match scale_u128(&mut input) {
            Ok(v) => {
                assert(bytes@.subrange(pos as int, pos + 16) =~= bytes@.skip(pos as int).take(16));
                Ok((v, pos + 16))
            },
            Err(t) => {
                assert forall|v: u128| v.encodable() implies !starts_with(
                    bytes@.skip(pos as int),
                    #[trigger] v.encoding(),
                ) by {
                    lemma_le_bytes_len(v as nat, 16);
                }
                Err(error_from(t))
            },
        }
    }

    fn fixed_width() -> (out: Option<usize>) {
        assert forall|v: u128| v.encodable() implies (#[trigger] v.encoding()).len() == 16 by {
            lemma_le_bytes_len(v as nat, 16);
        }
        Some(16)
    }
}

impl<const N: usize> Decode for [u8; N] {
    proof fn lemma_prefix_unique(a: Self, b: Self, s: Seq<u8>) {
        assert(a.encoding() == a@);
        assert(b.encoding() == b@);
    }

    open spec fn decode_error(bytes: Seq<u8>, pos: int) -> Seq<Seq<char>> {
        seq!["Not enough data to fill buffer"@]
    }

    fn decode_at(bytes: &[u8], pos: usize) -> (out: Result<(Self, usize), DecodeError>) {
        let mut input: &[u8] = &bytes[pos..bytes.len()];
        assert(input@ =~= bytes@.skip(pos as int));
        match scale_bytes::<N>(&mut input) {
            Ok(a) => {
                assert(bytes@.subrange(pos as int, pos + N) =~= bytes@.skip(pos as int).take(N as int));
                assert(a.encoding() == a@);
                Ok((a, pos + N))
            },
            Err(t) => {
                assert forall|v: [u8; N]| v.encodable() implies !starts_with(
                    bytes@.skip(pos as int),
                    #[trigger] v.encoding(),
                ) by {
                    assert(v.encoding() == v@);
                }
                Err(error_from(t))
            },
        }
    }

    open spec fn width() -> Option<nat> {
        None
    }

    fn fixed_width() -> (out: Option<usize>) {
        None
    }
}

impl<T: Decode> Decode for Option<T> {
    proof fn lemma_prefix_unique(a: Self, b: Self, s: Seq<u8>) {
        assert(s[0] == a.encoding()[0]);
        assert(s[0] == b.encoding()[0]);
        match (a, b) {
            (Some(x), Some(y)) => {
                lemma_starts_with_concat(s, seq![1u8], x.encoding());
                lemma_starts_with_concat(s, seq![1u8], y.encoding());
                T::lemma_prefix_unique(x, y, s.skip(1));
            },
            _ => {},
        }
    }

    open spec fn decode_error(bytes: Seq<u8>, pos: int) -> Seq<Seq<char>> {
        if pos >= bytes.len() {
            seq!["Not enough data to fill buffer"@, "Could not decode variant byte for `Option`"@]
        } else if bytes[pos] == 1 {
            T::decode_error(bytes, pos + 1).push("Could not decode `Option::Some(T)`"@)
        } else {
            seq!["unexpected first byte decoding Option"@]
        }
    }

    fn decode_at(bytes: &[u8], pos: usize) -> (out: Result<(Self, usize), DecodeError>) {
        let mut input: &[u8] = &bytes[pos..bytes.len()];
        assert(input@ =~= bytes@.skip(pos as int));
        let tag = match scale_u8(&mut input) {
            Ok(t) => t,
            Err(t) => {
                assert forall|o: Option<T>| o.encodable() implies !starts_with(
                    bytes@.skip(pos as int),
                    #[trigger] o.encoding(),
                ) by {
                    assert(o.encoding().len() > 0);
                }
                return Err(chained(error_from(t), "Could not decode variant byte for `Option`"));
            },
        };
        assert(tag == bytes@[pos as int]);
        if tag == 0 {
            assert(bytes@.subrange(pos as int, pos + 1) =~= seq![0u8]);
            let none: Option<T> = None;
            return Ok((none, pos + 1));
        }
        if tag == 1 {
            match T::decode_at(bytes, pos + 1) {
                Ok((v, end)) => {
                    assert(bytes@.subrange(pos as int, end as int) =~= seq![1u8]
                        + bytes@.subrange(pos + 1, end as int));
                    return Ok((Some(v), end));
                },
                Err(e) => {
                    assert forall|o: Option<T>| o.encodable() implies !starts_with(
                        bytes@.skip(pos as int),
                        #[trigger] o.encoding(),
                    ) by {
                        if starts_with(bytes@.skip(pos as int), o.encoding()) {
                            assert(bytes@.skip(pos as int)[0] == o.encoding()[0]);
                            let x = o.unwrap();
                            lemma_starts_with_concat(bytes@.skip(pos as int), seq![1u8], x.encoding());
                            assert(bytes@.skip(pos as int).skip(1) =~= bytes@.skip(pos + 1));
                        }
                    }
                    return Err(chained(e, "Could not decode `Option::Some(T)`"));
                },
            }
        }
        assert forall|o: Option<T>| o.encodable() implies !starts_with(
            bytes@.skip(pos as int),
            #[trigger] o.encoding(),
        ) by {
            if starts_with(bytes@.skip(pos as int), o.encoding()) {
                assert(bytes@.skip(pos as int)[0] == o.encoding()[0]);
            }
        }
        Err(error_desc("unexpected first byte decoding Option"))
    }

    open spec fn width() -> Option<nat> {
        None
    }

    fn fixed_width() -> (out: Option<usize>) {
        None
    }
}

impl<A: Decode, B: Decode> Decode for (A, B) {
    proof fn lemma_prefix_unique(a: Self, b: Self, s: Seq<u8>) {
        lemma_starts_with_concat(s, a.0.encoding(), a.1.encoding());
        lemma_starts_with_concat(s, b.0.encoding(), b.1.encoding());
        A::lemma_prefix_unique(a.0, b.0, s);
        B::lemma_prefix_unique(a.1, b.1, s.skip(a.0.encoding().len() as int));
    }

    open spec fn decode_error(bytes: Seq<u8>, pos: int) -> Seq<Seq<char>> {
        if !found::<A>(bytes.skip(pos)) {
            A::decode_error(bytes, pos)
        } else {
            B::decode_error(bytes, pos + found_len::<A>(bytes.skip(pos)))
        }
    }

    fn decode_at(bytes: &[u8], pos: usize) -> (out: Result<(Self, usize), DecodeError>) {
        let (x, p1) = match A::decode_at(bytes, pos) {
            Ok(r) => r,
            Err(e) => {
                assert forall|t: (A, B)| t.encodable() implies !starts_with(
                    bytes@.skip(pos as int),
                    #[trigger] t.encoding(),
                ) by {
                    lemma_starts_with_concat(bytes@.skip(pos as int), t.0.encoding(), t.1.encoding());
                }
                assert(!found::<A>(bytes@.skip(pos as int)));
                return Err(e);
            },
        };
        proof {
            lemma_subrange_prefix(bytes@, pos as int, p1 as int, x.encoding());
            lemma_found::<A>(bytes@.skip(pos as int), x);
        }
        let (y, p2) = match B::decode_at(bytes, p1) {
            Ok(r) => r,
            Err(e) => {
                assert forall|t: (A, B)| t.encodable() implies !starts_with(
                    bytes@.skip(pos as int),
                    #[trigger] t.encoding(),
                ) by {
                    let s = bytes@.skip(pos as int);
                    lemma_starts_with_concat(s, t.0.encoding(), t.1.encoding());
                    if starts_with(s, t.encoding()) {
                        A::lemma_prefix_unique(x, t.0, s);
                    }
                }
                return Err(e);
            },
        };
        assert(bytes@.subrange(pos as int, p2 as int) =~= bytes@.subrange(pos as int, p1 as int)
            + bytes@.subrange(p1 as int, p2 as int));
        Ok(((x, y), p2))
    }

    open spec fn width() -> Option<nat> {
        None
    }

    fn fixed_width() -> (out: Option<usize>) {
        None
    }
}

/// The encodings of a concatenation are the concatenated encodings.
pub proof fn lemma_encode_all_concat<T: Encode>(x: Seq<T>, y: Seq<T>)
    ensures
        encode_all(x + y) == encode_all(x) + encode_all(y),
    decreases y.len(),
{
    if y.len() == 0 {
        assert(x + y =~= x);
        assert(encode_all(x) + encode_all(y) =~= encode_all(x));
    } else {
        lemma_encode_all_concat(x, y.drop_last());
        assert((x + y).drop_last() =~= x + y.drop_last());
        assert((x + y).last() == y.last());
        assert(encode_all(x) + encode_all(y) =~= encode_all(x) + encode_all(y.drop_last())
            + y.last().encoding());
    }
}

/// When the encodings of two equally long sequences of values both begin
/// `s`, they are the same bytes.
proof fn lemma_encode_all_unique<T: Decode>(x: Seq<T>, y: Seq<T>, s: Seq<u8>)
    requires
        x.len() == y.len(),
        forall|i: int| 0 <= i < x.len() ==> (#[trigger] x[i]).encodable(),
        forall|i: int| 0 <= i < y.len() ==> (#[trigger] y[i]).encodable(),
        starts_with(s, encode_all(x)),
        starts_with(s, encode_all(y)),
    ensures
        encode_all(x) == encode_all(y),
    decreases x.len(),
{
    if x.len() > 0 {
        let xa = x.drop_last();
        let ya = y.drop_last();
        assert(forall|i: int| 0 <= i < xa.len() ==> xa[i] == x[i]);
        assert(forall|i: int| 0 <= i < ya.len() ==> ya[i] == y[i]);
        lemma_starts_with_concat(s, encode_all(xa), x.last().encoding());
        lemma_starts_with_concat(s, encode_all(ya), y.last().encoding());
        lemma_encode_all_unique(xa, ya, s);
        T::lemma_prefix_unique(x.last(), y.last(), s.skip(encode_all(xa).len() as int));
    }
}

/// When the encodings of `w` begin `r`, so do those of its first `i`
/// elements, and after them comes the encoding of element `i`.
proof fn lemma_encode_all_element<T: Encode>(w: Seq<T>, i: int, r: Seq<u8>)
    requires
        0 <= i < w.len(),
        starts_with(r, encode_all(w)),
    ensures
        starts_with(r, encode_all(w.take(i))),
        starts_with(r.skip(encode_all(w.take(i)).len() as int), w[i].encoding()),
{
    assert(w =~= w.take(i) + w.skip(i));
    lemma_encode_all_concat(w.take(i), w.skip(i));
    lemma_starts_with_concat(r, encode_all(w.take(i)), encode_all(w.skip(i)));
    assert(w.skip(i) =~= seq![w[i]] + w.skip(i + 1));
    lemma_encode_all_concat(seq![w[i]], w.skip(i + 1));
    let one = seq![w[i]];
    assert(one.drop_last() =~= Seq::<T>::empty());
    assert(one.last() == w[i]);
    assert(encode_all(one.drop_last()) =~= Seq::<u8>::empty());
    assert(encode_all(one) =~= w[i].encoding());
    lemma_starts_with_concat(
        r.skip(encode_all(w.take(i)).len() as int),
        w[i].encoding(),
        encode_all(w.skip(i + 1)),
    );
}

impl<T: Decode> Decode for Vec<T> {
    proof fn lemma_prefix_unique(a: Self, b: Self, s: Seq<u8>) {
        let ca = compact_u32_encoding(a@.len() as u32);
        let cb = compact_u32_encoding(b@.len() as u32);
        lemma_starts_with_concat(s, ca, encode_all(a@));
        lemma_starts_with_concat(s, cb, encode_all(b@));
        let r = s.skip(ca.len() as int);
        assert(s =~= ca + r);
        lemma_compact_u32_unique(a@.len() as u32, b@.len() as u32, r);
        lemma_encode_all_unique(a@, b@, r);
    }

    open spec fn decode_error(bytes: Seq<u8>, pos: int) -> Seq<Seq<char>> {
        let s = bytes.skip(pos);
        if exists|n: u32| starts_with(s, #[trigger] compact_u32_encoding(n)) {
            let n = choose|n: u32| starts_with(s, #[trigger] compact_u32_encoding(n));
            step_error(items_result::<T>(bytes, pos + compact_u32_encoding(n).len(), n as nat))
        } else {
            seq![compact_error_text(s)]
        }
    }

    fn decode_at(bytes: &[u8], pos: usize) -> (out: Result<(Self, usize), DecodeError>) {
        let ghost s = bytes@.skip(pos as int);
        let mut input: &[u8] = &bytes[pos..bytes.len()];
        assert(input@ =~= s);
        let n = match compact_u32_from_front(&mut input) {
            Ok(n) => n,
            Err(t) => {
                assert forall|w: Vec<T>| w.encodable() implies !starts_with(s, #[trigger] w.encoding()) by {
                    lemma_starts_with_concat(s, compact_u32_encoding(w@.len() as u32), encode_all(w@));
                }
                return Err(error_from(t));
            },
        };
        let ghost ce = compact_u32_encoding(n);
        let p: usize = bytes.len() - input.len();
        proof {
            lemma_prefix_subrange(bytes@, pos as int, ce);
            let m = choose|m: u32| starts_with(s, #[trigger] compact_u32_encoding(m));
            assert(s =~= ce + s.skip(ce.len() as int));
            lemma_compact_u32_unique(n, m, s.skip(ce.len() as int));
        }
        let items = match T::fixed_width() {
            Some(w) => decode_fixed_items::<T>(bytes, p, n, w),
            None => decode_each::<T>(bytes, p, n),
        };
        match items {
            Ok((v, end)) => {
                assert(bytes@.subrange(pos as int, end as int) =~= bytes@.subrange(pos as int, p as int)
                    + bytes@.subrange(p as int, end as int));
                Ok((v, end))
            },
            Err(e) => {
                assert forall|w: Vec<T>| w.encodable() implies !starts_with(s, #[trigger] w.encoding()) by {
                    let cw = compact_u32_encoding(w@.len() as u32);
                    lemma_starts_with_concat(s, cw, encode_all(w@));
                    if starts_with(s, w.encoding()) {
                        let r = s.skip(ce.len() as int);
                        assert(s =~= ce + r);
                        lemma_compact_u32_unique(n, w@.len() as u32, r);
                        assert(r =~= bytes@.skip(p as int));
                        assert(forall|k: int| 0 <= k < w@.len() ==> (#[trigger] w@[k]).encodable());
                    }
                }
                Err(e)
            },
        }
    }

    open spec fn width() -> Option<nat> {
        None
    }

    fn fixed_width() -> (out: Option<usize>) {
        None
    }
}

} // verus!
