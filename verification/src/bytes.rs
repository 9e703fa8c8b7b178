//! Byte sequences of the on-disk formats: overwriting a part of a block and
//! reading and writing integers of either byte order.

use vstd::prelude::*;

verus! {

/// Bytes in a filesystem block, and in a log block.
pub const BLOCK_SIZE: usize = 4096;

/// `s` with the bytes from `at` on replaced by `v`.
pub open spec fn splice(s: Seq<u8>, at: int, v: Seq<u8>) -> Seq<u8> {
    Seq::new(
        s.len(),
        |i: int|
            if at <= i < at + v.len() {
                v[i - at]
            } else {
                s[i]
            },
    )
}

/// `n` zero bytes.
pub open spec fn zeros(n: nat) -> Seq<u8> {
    Seq::new(n, |i: int| 0u8)
}

/// `s` with `n` bytes from `at` on zeroed.
pub open spec fn zeroed(s: Seq<u8>, at: int, n: nat) -> Seq<u8> {
    splice(s, at, zeros(n))
}

/// The big-endian bytes of a 16-bit value.
pub open spec fn be16(v: u16) -> Seq<u8> {
    seq![(v / 0x100) as u8, (v % 0x100) as u8]
}

/// The big-endian bytes of a 32-bit value.
pub open spec fn be32(v: u32) -> Seq<u8> {
    seq![
        (v / 0x100_0000) as u8,
        (v / 0x1_0000 % 0x100) as u8,
        (v / 0x100 % 0x100) as u8,
        (v % 0x100) as u8,
    ]
}

/// The big-endian bytes of a 64-bit value: its high word, then its low word.
pub open spec fn be64(v: u64) -> Seq<u8> {
    be32((v / 0x1_0000_0000) as u32) + be32((v % 0x1_0000_0000) as u32)
}

/// The value of two big-endian bytes from `at` on.
pub open spec fn be16_at(s: Seq<u8>, at: int) -> u16 {
    (s[at] * 0x100 + s[at + 1]) as u16
}

/// The value of four big-endian bytes from `at` on.
pub open spec fn be32_at(s: Seq<u8>, at: int) -> u32 {
    (s[at] * 0x100_0000 + s[at + 1] * 0x1_0000 + s[at + 2] * 0x100 + s[at + 3]) as u32
}

/// The value of eight big-endian bytes from `at` on.
pub open spec fn be64_at(s: Seq<u8>, at: int) -> u64 {
    (be32_at(s, at) * 0x1_0000_0000 + be32_at(s, at + 4)) as u64
}

/// The little-endian bytes of a 32-bit value.
pub open spec fn le32(v: u32) -> Seq<u8> {
    be32(v).reverse()
}

/// The value of four little-endian bytes from `at` on.
pub open spec fn le32_at(s: Seq<u8>, at: int) -> u32 {
    (s[at + 3] * 0x100_0000 + s[at + 2] * 0x1_0000 + s[at + 1] * 0x100 + s[at]) as u32
}

/// Reading what [`be16`] wrote gives the value back.
pub proof fn lemma_be16_at(s: Seq<u8>, at: int, v: u16)
    requires
        0 <= at,
        at + 2 <= s.len(),
        s[at] == be16(v)[0],
        s[at + 1] == be16(v)[1],
    ensures
        be16_at(s, at) == v,
{
}

/// Reading what [`be32`] wrote gives the value back.
pub proof fn lemma_be32_at(s: Seq<u8>, at: int, v: u32)
    requires
        0 <= at,
        at + 4 <= s.len(),
        forall|i: int| 0 <= i < 4 ==> #[trigger] s[at + i] == be32(v)[i],
    ensures
        be32_at(s, at) == v,
{
    assert(s[at + 0] == be32(v)[0]);
    assert(s[at + 1] == be32(v)[1]);
    assert(s[at + 2] == be32(v)[2]);
    assert(s[at + 3] == be32(v)[3]);
}

/// The bytes that [`be32_at`] reads are those of the value it gives.
pub proof fn lemma_be32_of(s: Seq<u8>, at: int)
    requires
        0 <= at,
        at + 4 <= s.len(),
    ensures
        be32(be32_at(s, at)) == s.subrange(at, at + 4),
{
    let v = be32_at(s, at);
    let (a, b, c, d) = (s[at], s[at + 1], s[at + 2], s[at + 3]);
    assert(v == a * 0x100_0000 + b * 0x1_0000 + c * 0x100 + d);
    assert(v / 0x100_0000 == a && v / 0x1_0000 % 0x100 == b && v / 0x100 % 0x100 == c && v % 0x100
        == d) by (bit_vector)
        requires
            v == a * 0x100_0000 + b * 0x1_0000 + c * 0x100 + d,
    ;
    assert(be32(v) =~= s.subrange(at, at + 4));
}

/// Overwrites `b` from `at` on with `v`.
pub fn write_bytes<const N: usize>(b: &mut [u8; N], at: usize, v: &[u8])
    requires
        at + v@.len() <= N,
    ensures
        final(b)@ == splice(old(b)@, at as int, v@),
{
    let ghost before = b@;
    let mut i: usize = 0;
    while i < v.len()
        invariant
            i <= v.len(),
            at + v@.len() <= N,
            before.len() == N,
            b@ == splice(before, at as int, v@.take(i as int)),
        decreases v.len() - i,
    {
        b[at + i] = v[i];
        i += 1;
        assert(b@ =~= splice(before, at as int, v@.take(i as int)));
    }
    assert(v@.take(v@.len() as int) =~= v@);
}

/// A block of zeros.
pub fn zero_block() -> (b: [u8; BLOCK_SIZE])
    ensures
        b@ == zeros(BLOCK_SIZE as nat),
{
    let b = [0u8; BLOCK_SIZE];
    assert(b@ =~= zeros(BLOCK_SIZE as nat));
    b
}

/// The big-endian bytes of `v`.
pub fn be16_bytes(v: u16) -> (b: [u8; 2])
    ensures
        b@ == be16(v),
{
    let b = [(v / 0x100) as u8, (v % 0x100) as u8];
    assert(b@ =~= be16(v));
    b
}

/// The big-endian bytes of `v`.
pub fn be32_bytes(v: u32) -> (b: [u8; 4])
    ensures
        b@ == be32(v),
{
    let b = [
        (v / 0x100_0000) as u8,
        (v / 0x1_0000 % 0x100) as u8,
        (v / 0x100 % 0x100) as u8,
        (v % 0x100) as u8,
    ];
    assert(b@ =~= be32(v));
    b
}

/// The little-endian bytes of `v`.
pub fn le32_bytes(v: u32) -> (b: [u8; 4])
    ensures
        b@ == le32(v),
{
    let b = [
        (v % 0x100) as u8,
        (v / 0x100 % 0x100) as u8,
        (v / 0x1_0000 % 0x100) as u8,
        (v / 0x100_0000) as u8,
    ];
    assert(b@ =~= le32(v));
    b
}

/// Reads the two big-endian bytes of `b` from `at` on.
pub fn read_be16(b: &[u8], at: usize) -> (v: u16)
    requires
        at + 2 <= b@.len(),
    ensures
        v == be16_at(b@, at as int),
{
    assert(b@.len() == b.len());
    b[at] as u16 * 0x100 + b[at + 1] as u16
}

/// Reads the four big-endian bytes of `b` from `at` on.
pub fn read_be32(b: &[u8], at: usize) -> (v: u32)
    requires
        at + 4 <= b@.len(),
    ensures
        v == be32_at(b@, at as int),
{
    assert(b@.len() == b.len());
    b[at] as u32 * 0x100_0000 + b[at + 1] as u32 * 0x1_0000 + b[at + 2] as u32 * 0x100
        + b[at + 3] as u32
}

/// Reads the eight big-endian bytes of `b` from `at` on.
pub fn read_be64(b: &[u8], at: usize) -> (v: u64)
    requires
        at + 8 <= b@.len(),
    ensures
        v == be64_at(b@, at as int),
{
    assert(b@.len() == b.len());
    read_be32(b, at) as u64 * 0x1_0000_0000 + read_be32(b, at + 4) as u64
}

/// Reads the four little-endian bytes of `b` from `at` on.
pub fn read_le32(b: &[u8], at: usize) -> (v: u32)
    requires
        at + 4 <= b@.len(),
    ensures
        v == le32_at(b@, at as int),
{
    assert(b@.len() == b.len());
    b[at + 3] as u32 * 0x100_0000 + b[at + 2] as u32 * 0x1_0000 + b[at + 1] as u32 * 0x100
        + b[at] as u32
}

} // verus!
