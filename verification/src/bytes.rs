//! Fixed-width scalars as byte sequences.
//!
//! Every scalar the container stores is described by two specification
//! functions: `spec_to_le` (its little-endian bytes) and `spec_from_le` (the
//! value those bytes denote). Big-endian decoding is byte reversal. The
//! round-trip laws at the end of the module state that decoding inverts
//! encoding for either byte order.

use vstd::bytes::*;
use vstd::prelude::*;

verus! {

/// A fixed-width scalar that can be decoded from bytes in either byte order.
pub trait ByteSwapper: Sized + Copy {
    /// How many bytes the scalar occupies on disk.
    spec fn spec_width() -> usize;

    /// The little-endian bytes of the value.
    spec fn spec_to_le(self) -> Seq<u8>;

    /// The value denoted by little-endian bytes.
    spec fn spec_from_le(b: Seq<u8>) -> Self;

    /// The encoding is `spec_width` bytes long, and at least one byte.
    proof fn lemma_to_le_len(self)
        ensures
            self.spec_to_le().len() == Self::spec_width(),
            Self::spec_width() >= 1,
    ;

    /// Decoding inverts encoding.
    proof fn lemma_le_round_trip(self)
        ensures
            Self::spec_from_le(self.spec_to_le()) == self,
    ;

    /// Encoding inverts decoding.
    proof fn lemma_le_bytes_round_trip(b: Seq<u8>)
        requires
            b.len() == Self::spec_width(),
        ensures
            Self::spec_from_le(b).spec_to_le() == b,
    ;

    /// The width of the scalar, executably; always at least one byte.
    fn width() -> (r: usize)
        ensures
            r == Self::spec_width(),
            1 <= r,
    ;

    /// Decode the value from exactly `spec_width` little-endian bytes.
    fn from_le_bytes(b: &[u8]) -> (r: Self)
        requires
            b@.len() == Self::spec_width(),
        ensures
            r == Self::spec_from_le(b@),
    ;

    /// Reverse the byte order of the value.
    fn swap_bytes(self) -> (r: Self)
        ensures
            r == Self::spec_from_le(self.spec_to_le().reverse()),
    ;
}

/// The value whose little-endian bytes are the reversal of `x`'s.
pub open spec fn swapped<T: ByteSwapper>(x: T) -> T {
    T::spec_from_le(x.spec_to_le().reverse())
}

/// Copy of a byte vector in reverse order.
fn reverse_bytes(v: &Vec<u8>) -> (r: Vec<u8>)
    ensures
        r@ == v@.reverse(),
{
    let mut r: Vec<u8> = Vec::new();
    let mut i: usize = v.len();
    while i > 0
        invariant
            i <= v.len(),
            r@.len() == v.len() - i,
            forall|k: int| 0 <= k < r@.len() ==> r@[k] == v@[v@.len() - 1 - k],
        decreases i,
    {
        i = i - 1;
        r.push(v[i]);
    }
    assert(r@ =~= v@.reverse());
    r
}

impl ByteSwapper for u8 {
    open spec fn spec_width() -> usize {
        1
    }

    open spec fn spec_to_le(self) -> Seq<u8> {
        seq![self]
    }

    open spec fn spec_from_le(b: Seq<u8>) -> Self {
        b[0]
    }

    proof fn lemma_to_le_len(self) {
    }

    proof fn lemma_le_round_trip(self) {
    }

    proof fn lemma_le_bytes_round_trip(b: Seq<u8>) {
        assert(Self::spec_from_le(b).spec_to_le() =~= b);
    }

    fn width() -> usize {
        1
    }

    fn from_le_bytes(b: &[u8]) -> Self {
        b[0]
    }

    fn swap_bytes(self) -> (r: Self) {
        proof {
            assert(self.spec_to_le().reverse() =~= self.spec_to_le());
        }
        self
    }
}

impl ByteSwapper for i8 {
    open spec fn spec_width() -> usize {
        1
    }

    open spec fn spec_to_le(self) -> Seq<u8> {
        seq![self as u8]
    }

    open spec fn spec_from_le(b: Seq<u8>) -> Self {
        b[0] as i8
    }

    proof fn lemma_to_le_len(self) {
    }

    proof fn lemma_le_round_trip(self) {
        assert((self as u8) as i8 == self) by (bit_vector);
    }

    proof fn lemma_le_bytes_round_trip(b: Seq<u8>) {
        let x = b[0];
        assert((x as i8) as u8 == x) by (bit_vector);
        assert(Self::spec_from_le(b).spec_to_le() =~= b);
    }

    fn width() -> usize {
        1
    }

    fn from_le_bytes(b: &[u8]) -> Self {
        b[0] as i8
    }

    fn swap_bytes(self) -> (r: Self) {
        proof {
            assert(self.spec_to_le().reverse() =~= self.spec_to_le());
            Self::lemma_le_round_trip(self);
        }
        self
    }
}

impl ByteSwapper for u16 {
    open spec fn spec_width() -> usize {
        2
    }

    open spec fn spec_to_le(self) -> Seq<u8> {
        spec_u16_to_le_bytes(self)
    }

    open spec fn spec_from_le(b: Seq<u8>) -> Self {
        spec_u16_from_le_bytes(b)
    }

    proof fn lemma_to_le_len(self) {
        lemma_auto_spec_u16_to_from_le_bytes();
    }

    proof fn lemma_le_round_trip(self) {
        lemma_auto_spec_u16_to_from_le_bytes();
        assert(spec_u16_to_le_bytes(self).len() == 2);
    }

    proof fn lemma_le_bytes_round_trip(b: Seq<u8>) {
        lemma_auto_spec_u16_to_from_le_bytes();
    }

    fn width() -> usize {
        2
    }

    fn from_le_bytes(b: &[u8]) -> Self {
        u16_from_le_bytes(b)
    }

    fn swap_bytes(self) -> (r: Self) {
        let b = u16_to_le_bytes(self);
        let rev = reverse_bytes(&b);
        proof {
            lemma_auto_spec_u16_to_from_le_bytes();
        }
        u16_from_le_bytes(rev.as_slice())
    }
}

impl ByteSwapper for i16 {
    open spec fn spec_width() -> usize {
        2
    }

    open spec fn spec_to_le(self) -> Seq<u8> {
        spec_u16_to_le_bytes(self as u16)
    }

    open spec fn spec_from_le(b: Seq<u8>) -> Self {
        spec_u16_from_le_bytes(b) as i16
    }

    proof fn lemma_to_le_len(self) {
        lemma_auto_spec_u16_to_from_le_bytes();
    }

    proof fn lemma_le_round_trip(self) {
        lemma_auto_spec_u16_to_from_le_bytes();
        assert(spec_u16_to_le_bytes(self as u16).len() == 2);
        let x = self;
        assert((x as u16) as i16 == x) by (bit_vector);
    }

    proof fn lemma_le_bytes_round_trip(b: Seq<u8>) {
        lemma_auto_spec_u16_to_from_le_bytes();
        let u = spec_u16_from_le_bytes(b);
        assert((u as i16) as u16 == u) by (bit_vector);
    }

    fn width() -> usize {
        2
    }

    fn from_le_bytes(b: &[u8]) -> Self {
        u16_from_le_bytes(b) as i16
    }

    fn swap_bytes(self) -> (r: Self) {
        let b = u16_to_le_bytes(self as u16);
        let rev = reverse_bytes(&b);
        proof {
            lemma_auto_spec_u16_to_from_le_bytes();
        }
        u16_from_le_bytes(rev.as_slice()) as i16
    }
}

impl ByteSwapper for u32 {
    open spec fn spec_width() -> usize {
        4
    }

    open spec fn spec_to_le(self) -> Seq<u8> {
        spec_u32_to_le_bytes(self)
    }

    open spec fn spec_from_le(b: Seq<u8>) -> Self {
        spec_u32_from_le_bytes(b)
    }

    proof fn lemma_to_le_len(self) {
        lemma_auto_spec_u32_to_from_le_bytes();
    }

    proof fn lemma_le_round_trip(self) {
        lemma_auto_spec_u32_to_from_le_bytes();
        assert(spec_u32_to_le_bytes(self).len() == 4);
    }

    proof fn lemma_le_bytes_round_trip(b: Seq<u8>) {
        lemma_auto_spec_u32_to_from_le_bytes();
    }

    fn width() -> usize {
        4
    }

    fn from_le_bytes(b: &[u8]) -> Self {
        u32_from_le_bytes(b)
    }

    fn swap_bytes(self) -> (r: Self) {
        let b = u32_to_le_bytes(self);
        let rev = reverse_bytes(&b);
        proof {
            lemma_auto_spec_u32_to_from_le_bytes();
        }
        u32_from_le_bytes(rev.as_slice())
    }
}

impl ByteSwapper for i32 {
    open spec fn spec_width() -> usize {
        4
    }

    open spec fn spec_to_le(self) -> Seq<u8> {
        spec_u32_to_le_bytes(self as u32)
    }

    open spec fn spec_from_le(b: Seq<u8>) -> Self {
        spec_u32_from_le_bytes(b) as i32
    }

    proof fn lemma_to_le_len(self) {
        lemma_auto_spec_u32_to_from_le_bytes();
    }

    proof fn lemma_le_round_trip(self) {
        lemma_auto_spec_u32_to_from_le_bytes();
        assert(spec_u32_to_le_bytes(self as u32).len() == 4);
        let x = self;
        assert((x as u32) as i32 == x) by (bit_vector);
    }

    proof fn lemma_le_bytes_round_trip(b: Seq<u8>) {
        lemma_auto_spec_u32_to_from_le_bytes();
        let u = spec_u32_from_le_bytes(b);
        assert((u as i32) as u32 == u) by (bit_vector);
    }

    fn width() -> usize {
        4
    }

    fn from_le_bytes(b: &[u8]) -> Self {
        u32_from_le_bytes(b) as i32
    }

    fn swap_bytes(self) -> (r: Self) {
        let b = u32_to_le_bytes(self as u32);
        let rev = reverse_bytes(&b);
        proof {
            lemma_auto_spec_u32_to_from_le_bytes();
        }
        u32_from_le_bytes(rev.as_slice()) as i32
    }
}

impl ByteSwapper for u64 {
    open spec fn spec_width() -> usize {
        8
    }

    open spec fn spec_to_le(self) -> Seq<u8> {
        spec_u64_to_le_bytes(self)
    }

    open spec fn spec_from_le(b: Seq<u8>) -> Self {
        spec_u64_from_le_bytes(b)
    }

    proof fn lemma_to_le_len(self) {
        lemma_auto_spec_u64_to_from_le_bytes();
    }

    proof fn lemma_le_round_trip(self) {
        lemma_auto_spec_u64_to_from_le_bytes();
    }

    proof fn lemma_le_bytes_round_trip(b: Seq<u8>) {
        lemma_auto_spec_u64_to_from_le_bytes();
    }

    fn width() -> usize {
        8
    }

    fn from_le_bytes(b: &[u8]) -> Self {
        u64_from_le_bytes(b)
    }

    fn swap_bytes(self) -> (r: Self) {
        let b = u64_to_le_bytes(self);
        let rev = reverse_bytes(&b);
        proof {
            lemma_auto_spec_u64_to_from_le_bytes();
        }
        u64_from_le_bytes(rev.as_slice())
    }
}

impl ByteSwapper for i64 {
    open spec fn spec_width() -> usize {
        8
    }

    open spec fn spec_to_le(self) -> Seq<u8> {
        spec_u64_to_le_bytes(self as u64)
    }

    open spec fn spec_from_le(b: Seq<u8>) -> Self {
        spec_u64_from_le_bytes(b) as i64
    }

    proof fn lemma_to_le_len(self) {
        lemma_auto_spec_u64_to_from_le_bytes();
    }

    proof fn lemma_le_round_trip(self) {
        lemma_auto_spec_u64_to_from_le_bytes();
        assert(spec_u64_to_le_bytes(self as u64).len() == 8);
        let x = self;
        assert((x as u64) as i64 == x) by (bit_vector);
    }

    proof fn lemma_le_bytes_round_trip(b: Seq<u8>) {
        lemma_auto_spec_u64_to_from_le_bytes();
        let u = spec_u64_from_le_bytes(b);
        assert((u as i64) as u64 == u) by (bit_vector);
    }

    fn width() -> usize {
        8
    }

    fn from_le_bytes(b: &[u8]) -> Self {
        u64_from_le_bytes(b) as i64
    }

    fn swap_bytes(self) -> (r: Self) {
        let b = u64_to_le_bytes(self as u64);
        let rev = reverse_bytes(&b);
        proof {
            lemma_auto_spec_u64_to_from_le_bytes();
        }
        u64_from_le_bytes(rev.as_slice()) as i64
    }
}

impl ByteSwapper for u128 {
    open spec fn spec_width() -> usize {
        16
    }

    open spec fn spec_to_le(self) -> Seq<u8> {
        spec_u128_to_le_bytes(self)
    }

    open spec fn spec_from_le(b: Seq<u8>) -> Self {
        spec_u128_from_le_bytes(b)
    }

    proof fn lemma_to_le_len(self) {
        lemma_auto_spec_u128_to_from_le_bytes();
    }

    proof fn lemma_le_round_trip(self) {
        lemma_auto_spec_u128_to_from_le_bytes();
        assert(spec_u128_to_le_bytes(self).len() == 16);
    }

    proof fn lemma_le_bytes_round_trip(b: Seq<u8>) {
        lemma_auto_spec_u128_to_from_le_bytes();
    }

    fn width() -> usize {
        16
    }

    fn from_le_bytes(b: &[u8]) -> Self {
        u128_from_le_bytes(b)
    }

    fn swap_bytes(self) -> (r: Self) {
        let b = u128_to_le_bytes(self);
        let rev = reverse_bytes(&b);
        proof {
            lemma_auto_spec_u128_to_from_le_bytes();
        }
        u128_from_le_bytes(rev.as_slice())
    }
}

impl ByteSwapper for i128 {
    open spec fn spec_width() -> usize {
        16
    }

    open spec fn spec_to_le(self) -> Seq<u8> {
        spec_u128_to_le_bytes(self as u128)
    }

    open spec fn spec_from_le(b: Seq<u8>) -> Self {
        spec_u128_from_le_bytes(b) as i128
    }

    proof fn lemma_to_le_len(self) {
        lemma_auto_spec_u128_to_from_le_bytes();
    }

    proof fn lemma_le_round_trip(self) {
        lemma_auto_spec_u128_to_from_le_bytes();
        assert(spec_u128_to_le_bytes(self as u128).len() == 16);
        let x = self;
        assert((x as u128) as i128 == x) by (bit_vector);
    }

    proof fn lemma_le_bytes_round_trip(b: Seq<u8>) {
        lemma_auto_spec_u128_to_from_le_bytes();
        let u = spec_u128_from_le_bytes(b);
        assert((u as i128) as u128 == u) by (bit_vector);
    }

    fn width() -> usize {
        16
    }

    fn from_le_bytes(b: &[u8]) -> Self {
        u128_from_le_bytes(b) as i128
    }

    fn swap_bytes(self) -> (r: Self) {
        let b = u128_to_le_bytes(self as u128);
        let rev = reverse_bytes(&b);
        proof {
            lemma_auto_spec_u128_to_from_le_bytes();
        }
        u128_from_le_bytes(rev.as_slice()) as i128
    }
}

/// The bytes of a value in the given byte order.
pub open spec fn spec_scalar_bytes<T: ByteSwapper>(x: T, endianess: crate::Endian) -> Seq<u8> {
    match endianess {
        crate::Endian::Little => x.spec_to_le(),
        crate::Endian::Big => x.spec_to_le().reverse(),
    }
}

/// The value denoted by bytes in the given byte order.
pub open spec fn spec_scalar<T: ByteSwapper>(b: Seq<u8>, endianess: crate::Endian) -> T {
    match endianess {
        crate::Endian::Little => T::spec_from_le(b),
        crate::Endian::Big => T::spec_from_le(b.reverse()),
    }
}

/// Reversing the byte order of a decoded value decodes the reversed bytes.
pub proof fn lemma_swapped_is_reversed<T: ByteSwapper>(b: Seq<u8>)
    requires
        b.len() == T::spec_width(),
    ensures
        swapped(T::spec_from_le(b)) == T::spec_from_le(b.reverse()),
{
    T::lemma_le_bytes_round_trip(b);
}

/// For every fixed-width scalar type and either byte order, decoding the
/// bytes of a value yields the value back.
pub proof fn lemma_scalar_round_trip<T: ByteSwapper>(x: T, endianess: crate::Endian)
    ensures
        spec_scalar::<T>(spec_scalar_bytes(x, endianess), endianess) == x,
{
    x.lemma_to_le_len();
    x.lemma_le_round_trip();
    match endianess {
        crate::Endian::Little => {}
        crate::Endian::Big => {
            assert(x.spec_to_le().reverse().reverse() =~= x.spec_to_le());
        }
    }
}

} // verus!
