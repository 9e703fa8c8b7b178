//! crc32c, as the journal and the inode table use it: seeded, without a final
//! inversion, so that a checksum over two segments is the second segment's
//! checksum seeded with the first's.

use vstd::prelude::*;

use crate::bytes::{zeroed, zeros};

verus! {

/// The crc32c polynomial, lowest power in the highest bit.
pub const CRC32C_POLY: u32 = 0x82F6_3B78;

/// One bit of polynomial division.
pub open spec fn crc_bit(c: u32) -> u32 {
    if c & 1 == 1 {
        (c >> 1) ^ CRC32C_POLY
    } else {
        c >> 1
    }
}

/// `n` bits of polynomial division.
pub open spec fn crc_bits(c: u32, n: nat) -> u32
    decreases n,
{
    if n == 0 {
        c
    } else {
        crc_bit(crc_bits(c, (n - 1) as nat))
    }
}

/// The checksum `c` extended by one byte.
pub open spec fn crc_byte(c: u32, b: u8) -> u32 {
    crc_bits(c ^ (b as u32), 8)
}

/// The checksum of `s`, seeded with `seed`.
pub open spec fn crc(seed: u32, s: Seq<u8>) -> u32
    decreases s.len(),
{
    if s.len() == 0 {
        seed
    } else {
        crc_byte(crc(seed, s.drop_last()), s.last())
    }
}

/// Segments chain: the checksum of two segments is that of the second one,
/// seeded with that of the first.
pub proof fn lemma_crc_chains(seed: u32, a: Seq<u8>, b: Seq<u8>)
    ensures
        crc(seed, a + b) == crc(crc(seed, a), b),
    decreases b.len(),
{
    if b.len() == 0 {
        assert(a + b =~= a);
    } else {
        lemma_crc_chains(seed, a, b.drop_last());
        assert((a + b).drop_last() =~= a + b.drop_last());
        assert((a + b).last() == b.last());
    }
}

/// Hashing around a hole equals hashing the bytes with the hole zeroed.
pub proof fn lemma_crc_around_hole(seed: u32, s: Seq<u8>, at: int, n: nat)
    requires
        0 <= at,
        at + n <= s.len(),
    ensures
        crc(crc(crc(seed, s.take(at)), zeros(n)), s.skip(at + n)) == crc(seed, zeroed(s, at, n)),
{
    lemma_crc_chains(seed, s.take(at), zeros(n));
    lemma_crc_chains(seed, s.take(at) + zeros(n), s.skip(at + n));
    assert(s.take(at) + zeros(n) + s.skip(at + n) =~= zeroed(s, at, n));
}

proof fn lemma_bit_injective(c: u32, d: u32)
    requires
        crc_bit(c) == crc_bit(d),
    ensures
        c == d,
{
    let x: u32 = if c & 1 == 1 {
        (c >> 1) ^ 0x82F6_3B78u32
    } else {
        c >> 1
    };
    let y: u32 = if d & 1 == 1 {
        (d >> 1) ^ 0x82F6_3B78u32
    } else {
        d >> 1
    };
    assert(x == y);
    assert(c == d) by (bit_vector)
        requires
            x == (if c & 1 == 1 {
                (c >> 1) ^ 0x82F6_3B78u32
            } else {
                c >> 1
            }),
            y == (if d & 1 == 1 {
                (d >> 1) ^ 0x82F6_3B78u32
            } else {
                d >> 1
            }),
            x == y,
    ;
}

proof fn lemma_bits_injective(c: u32, d: u32, n: nat)
    requires
        crc_bits(c, n) == crc_bits(d, n),
    ensures
        c == d,
    decreases n,
{
    if n > 0 {
        lemma_bit_injective(crc_bits(c, (n - 1) as nat), crc_bits(d, (n - 1) as nat));
        lemma_bits_injective(c, d, (n - 1) as nat);
    }
}

/// Two seeds that differ give checksums that differ.
pub proof fn lemma_crc_seed_injective(seed: u32, other: u32, s: Seq<u8>)
    requires
        crc(seed, s) == crc(other, s),
    ensures
        seed == other,
    decreases s.len(),
{
    if s.len() > 0 {
        let c = crc(seed, s.drop_last());
        let d = crc(other, s.drop_last());
        let b = s.last();
        lemma_bits_injective(c ^ (b as u32), d ^ (b as u32), 8);
        assert(c == d) by (bit_vector)
            requires
                c ^ (b as u32) == d ^ (b as u32),
        ;
        lemma_crc_seed_injective(seed, other, s.drop_last());
    }
}

/// A change of one byte changes the checksum, wherever the byte stands.
pub proof fn lemma_crc_detects_byte(seed: u32, s: Seq<u8>, at: int, b: u8)
    requires
        0 <= at < s.len(),
        b != s[at],
    ensures
        crc(seed, s.update(at, b)) != crc(seed, s),
    decreases s.len(),
{
    let t = s.update(at, b);
    let i = s.len() - 1;
    if at == i {
        assert(t.drop_last() =~= s.drop_last());
        let c = crc(seed, s.drop_last());
        let p = s.last();
        let q = t.last();
        assert(q == b);
        if crc(seed, t) == crc(seed, s) {
            lemma_bits_injective(c ^ (p as u32), c ^ (q as u32), 8);
            assert(p == q) by (bit_vector)
                requires
                    c ^ (p as u32) == c ^ (q as u32),
            ;
        }
    } else {
        lemma_crc_detects_byte(seed, s.drop_last(), at, b);
        assert(t.drop_last() =~= s.drop_last().update(at, b));
        let c = crc(seed, s.drop_last());
        let d = crc(seed, t.drop_last());
        let p = s.last();
        assert(t.last() == p);
        if crc(seed, t) == crc(seed, s) {
            lemma_bits_injective(c ^ (p as u32), d ^ (p as u32), 8);
            assert(c == d) by (bit_vector)
                requires
                    c ^ (p as u32) == d ^ (p as u32),
            ;
        }
    }
}

/// Extends the checksum `seed` by `bytes`.
pub fn crc32c(seed: u32, bytes: &[u8]) -> (r: u32)
    ensures
        r == crc(seed, bytes@),
{
    let mut c: u32 = seed;
    let mut i: usize = 0;
    assert(bytes@.take(0) =~= Seq::<u8>::empty());
    while i < bytes.len()
        invariant
            i <= bytes@.len(),
            c == crc(seed, bytes@.take(i as int)),
        decreases bytes.len() - i,
    {
        let start: u32 = c ^ (bytes[i] as u32);
        let mut d: u32 = start;
        let mut n: u32 = 0;
        while n < 8
            invariant
                n <= 8,
                d == crc_bits(start, n as nat),
            decreases 8 - n,
        {
            d = if d & 1 == 1 {
                (d >> 1) ^ CRC32C_POLY
            } else {
                d >> 1
            };
            n += 1;
        }
        assert(bytes@.take(i + 1).drop_last() =~= bytes@.take(i as int));
        c = d;
        i += 1;
    }
    assert(bytes@.take(bytes@.len() as int) =~= bytes@);
    c
}

/// Extends the checksum `seed` by `bytes`, with the `n` bytes from `at` on
/// taken as zeros. `hole` holds `n` zeros.
pub fn crc32c_around(seed: u32, bytes: &[u8], at: usize, hole: &[u8]) -> (r: u32)
    requires
        at + hole@.len() <= bytes@.len(),
        hole@ == zeros(hole@.len()),
    ensures
        r == crc(seed, zeroed(bytes@, at as int, hole@.len())),
{
    assert(bytes@.len() == bytes.len());
    let end: usize = at + hole.len();
    let head: u32 = crc32c(seed, &bytes[0..at]);
    let mid: u32 = crc32c(head, hole);
    proof {
        lemma_crc_around_hole(seed, bytes@, at as int, hole@.len());
        assert(bytes@.subrange(0, at as int) =~= bytes@.take(at as int));
        assert(bytes@.subrange(end as int, bytes@.len() as int) =~= bytes@.skip(end as int));
    }
    crc32c(mid, &bytes[end..bytes.len()])
}

} // verus!
