//! The inode as it stands on disk, and its checksum.

use vstd::prelude::*;

use crate::bytes::{le32, le32_at, le32_bytes, read_le32, zeroed, zeros};
use crate::checksum::{crc, crc32c, lemma_crc_chains};
use crate::error::Error;
use crate::inode::device::RAW_BLOCK_PTRS_LEN;

verus! {

/// Bytes of an inode.
pub const INODE_SIZE: usize = 256;

/// Bytes behind the fields of an inode.
pub const INODE_TAIL_SIZE: usize = 96;

/// Words of the fields of an inode.
pub const INODE_WORDS: usize = 40;

/// Offset of the low half of the checksum.
pub const I_CHECKSUM_LO_OFFSET: usize = 0x7C;

/// Offset of the high half of the checksum, in an inode of more than the
/// basic size.
pub const I_CHECKSUM_HI_OFFSET: usize = 0x82;

/// The basic size of an inode.
pub const BASIC_INODE_SIZE: usize = 128;

/// The fields of an inode, in their order.
#[derive(Clone, Copy, Debug)]
pub struct RawInode {
    pub mode: u16,
    pub uid: u16,
    pub size_lo: u32,
    pub atime: u32,
    pub ctime: u32,
    pub mtime: u32,
    pub dtime: u32,
    pub gid: u16,
    pub link_count: u16,
    pub sector_count: u32,
    pub flags: u32,
    pub osd1: u32,
    pub block: [u32; RAW_BLOCK_PTRS_LEN],
    pub generation: u32,
    pub file_acl_lo: u32,
    pub size_high: u32,
    pub obso_faddr: u32,
    pub blocks_high: u16,
    pub file_acl_high: u16,
    pub uid_high: u16,
    pub gid_high: u16,
    pub checksum_lo: u16,
    pub osd2_reserved: u16,
    pub extra_isize: u16,
    pub checksum_hi: u16,
    pub ctime_extra: u32,
    pub mtime_extra: u32,
    pub atime_extra: u32,
    pub crtime: u32,
    pub crtime_extra: u32,
    pub version_hi: u32,
    pub projid: u32,
    pub tail: [u8; INODE_TAIL_SIZE],
}

/// Two halves as one little-endian word.
pub open spec fn word_of(low: u16, high: u16) -> u32 {
    (low + high * 0x1_0000) as u32
}

impl RawInode {
    /// The fields as the words that they take on disk.
    pub open spec fn words(self) -> Seq<u32> {
        seq![
            word_of(self.mode, self.uid),
            self.size_lo,
            self.atime,
            self.ctime,
            self.mtime,
            self.dtime,
            word_of(self.gid, self.link_count),
            self.sector_count,
            self.flags,
            self.osd1,
        ] + self.block@ + seq![
            self.generation,
            self.file_acl_lo,
            self.size_high,
            self.obso_faddr,
            word_of(self.blocks_high, self.file_acl_high),
            word_of(self.uid_high, self.gid_high),
            word_of(self.checksum_lo, self.osd2_reserved),
            word_of(self.extra_isize, self.checksum_hi),
            self.ctime_extra,
            self.mtime_extra,
            self.atime_extra,
            self.crtime,
            self.crtime_extra,
            self.version_hi,
            self.projid,
        ]
    }

    /// The bytes on disk.
    pub open spec fn image(self) -> Seq<u8> {
        inode_image(self.words(), self.tail@)
    }

    /// An inode of zeros.
    pub fn zero() -> (raw: Self)
        ensures
            raw.words() == Seq::new(INODE_WORDS as nat, |i: int| 0u32),
            raw.tail@ == zeros(INODE_TAIL_SIZE as nat),
    {
        let raw = RawInode {
            mode: 0,
            uid: 0,
            size_lo: 0,
            atime: 0,
            ctime: 0,
            mtime: 0,
            dtime: 0,
            gid: 0,
            link_count: 0,
            sector_count: 0,
            flags: 0,
            osd1: 0,
            block: [0u32; RAW_BLOCK_PTRS_LEN],
            generation: 0,
            file_acl_lo: 0,
            size_high: 0,
            obso_faddr: 0,
            blocks_high: 0,
            file_acl_high: 0,
            uid_high: 0,
            gid_high: 0,
            checksum_lo: 0,
            osd2_reserved: 0,
            extra_isize: 0,
            checksum_hi: 0,
            ctime_extra: 0,
            mtime_extra: 0,
            atime_extra: 0,
            crtime: 0,
            crtime_extra: 0,
            version_hi: 0,
            projid: 0,
            tail: [0u8; INODE_TAIL_SIZE],
        };
        assert(raw.words() =~= Seq::new(INODE_WORDS as nat, |i: int| 0u32));
        assert(raw.tail@ =~= zeros(INODE_TAIL_SIZE as nat));
        raw
    }

    /// Makes the bytes on disk.
    pub fn as_bytes(&self) -> (bytes: [u8; INODE_SIZE])
        ensures
            bytes@ == self.image(),
    {
        let b = &self.block;
        let words: [u32; 40] = [
            join(self.mode, self.uid),
            self.size_lo,
            self.atime,
            self.ctime,
            self.mtime,
            self.dtime,
            join(self.gid, self.link_count),
            self.sector_count,
            self.flags,
            self.osd1,
            b[0],
            b[1],
            b[2],
            b[3],
            b[4],
            b[5],
            b[6],
            b[7],
            b[8],
            b[9],
            b[10],
            b[11],
            b[12],
            b[13],
            b[14],
            self.generation,
            self.file_acl_lo,
            self.size_high,
            self.obso_faddr,
            join(self.blocks_high, self.file_acl_high),
            join(self.uid_high, self.gid_high),
            join(self.checksum_lo, self.osd2_reserved),
            join(self.extra_isize, self.checksum_hi),
            self.ctime_extra,
            self.mtime_extra,
            self.atime_extra,
            self.crtime,
            self.crtime_extra,
            self.version_hi,
            self.projid,
        ];
        assert(words@ =~= self.words());
        let mut bytes = [0u8; INODE_SIZE];
        let mut i: usize = 0;
        while i < 160
            invariant
                i <= 160,
                words@.len() == 40,
                words@ == self.words(),
                forall|k: int| 0 <= k < i ==> bytes@[k] == self.image()[k],
            decreases 160 - i,
        {
            let w: u32 = words[i / 4];
            let r: usize = i % 4;
            bytes[i] = if r == 0 {
                (w % 0x100) as u8
            } else if r == 1 {
                (w / 0x100 % 0x100) as u8
            } else if r == 2 {
                (w / 0x1_0000 % 0x100) as u8
            } else {
                (w / 0x100_0000) as u8
            };
            i += 1;
        }
        let mut k: usize = 0;
        while k < INODE_TAIL_SIZE
            invariant
                k <= INODE_TAIL_SIZE,
                forall|j: int| 0 <= j < 160 + k ==> bytes@[j] == self.image()[j],
            decreases INODE_TAIL_SIZE - k,
        {
            bytes[160 + k] = self.tail[k];
            k += 1;
        }
        assert(bytes@ =~= self.image());
        bytes
    }

    /// Reads the fields from the bytes on disk.
    pub fn from_bytes(bytes: &[u8; INODE_SIZE]) -> (raw: Self)
        ensures
            raw.image() == bytes@,
            raw.words() == Seq::new(INODE_WORDS as nat, |i: int| le32_at(bytes@, 4 * i)),
            raw.tail@ == bytes@.skip(160),
    {
        let mut w = [0u32; INODE_WORDS];
        let mut i: usize = 0;
        while i < INODE_WORDS
            invariant
                i <= INODE_WORDS,
                forall|k: int| 0 <= k < i ==> w@[k] == le32_at(bytes@, 4 * k),
            decreases INODE_WORDS - i,
        {
            w[i] = read_le32(bytes, 4 * i);
            i += 1;
        }
        let mut tail = [0u8; INODE_TAIL_SIZE];
        let mut k: usize = 0;
        while k < INODE_TAIL_SIZE
            invariant
                k <= INODE_TAIL_SIZE,
                forall|j: int| 0 <= j < k ==> tail@[j] == bytes@[160 + j],
            decreases INODE_TAIL_SIZE - k,
        {
            tail[k] = bytes[160 + k];
            k += 1;
        }
        let block = [
            w[10], w[11], w[12], w[13], w[14], w[15], w[16], w[17], w[18], w[19], w[20], w[21],
            w[22], w[23], w[24],
        ];
        let raw = RawInode {
            mode: low(w[0]),
            uid: high(w[0]),
            size_lo: w[1],
            atime: w[2],
            ctime: w[3],
            mtime: w[4],
            dtime: w[5],
            gid: low(w[6]),
            link_count: high(w[6]),
            sector_count: w[7],
            flags: w[8],
            osd1: w[9],
            block,
            generation: w[25],
            file_acl_lo: w[26],
            size_high: w[27],
            obso_faddr: w[28],
            blocks_high: low(w[29]),
            file_acl_high: high(w[29]),
            uid_high: low(w[30]),
            gid_high: high(w[30]),
            checksum_lo: low(w[31]),
            osd2_reserved: high(w[31]),
            extra_isize: low(w[32]),
            checksum_hi: high(w[32]),
            ctime_extra: w[33],
            mtime_extra: w[34],
            atime_extra: w[35],
            crtime: w[36],
            crtime_extra: w[37],
            version_hi: w[38],
            projid: w[39],
            tail,
        };
        proof {
            assert(raw.words() =~= w@);
            assert(w@ =~= Seq::new(INODE_WORDS as nat, |i: int| le32_at(bytes@, 4 * i)));
            assert(raw.tail@ =~= bytes@.skip(160));
            lemma_image_of_bytes(bytes@, raw.words(), raw.tail@);
        }
        raw
    }
}

/// The bytes of words and of what follows them.
pub open spec fn inode_image(words: Seq<u32>, tail: Seq<u8>) -> Seq<u8> {
    Seq::new(
        INODE_SIZE as nat,
        |i: int|
            if i < 160 {
                word_byte(words[i / 4], i % 4)
            } else {
                tail[i - 160]
            },
    )
}

/// The byte `k` of a little-endian word.
pub open spec fn word_byte(w: u32, k: int) -> u8 {
    if k == 0 {
        (w % 0x100) as u8
    } else if k == 1 {
        (w / 0x100 % 0x100) as u8
    } else if k == 2 {
        (w / 0x1_0000 % 0x100) as u8
    } else {
        (w / 0x100_0000) as u8
    }
}

/// The words of some bytes have those bytes.
proof fn lemma_image_of_bytes(bytes: Seq<u8>, words: Seq<u32>, tail: Seq<u8>)
    requires
        bytes.len() == INODE_SIZE,
        words == Seq::new(INODE_WORDS as nat, |i: int| le32_at(bytes, 4 * i)),
        tail == bytes.skip(160),
    ensures
        inode_image(words, tail) == bytes,
{
    assert forall|i: int| 0 <= i < INODE_SIZE implies inode_image(words, tail)[i]
        == bytes[i] by {
        if i < 160 {
            let q = i / 4;
            let w = words[q];
            let (a, b, c, d) = (bytes[4 * q], bytes[4 * q + 1], bytes[4 * q + 2], bytes[4 * q + 3]);
            assert(w == d * 0x100_0000 + c * 0x1_0000 + b * 0x100 + a);
            assert(w % 0x100 == a && w / 0x100 % 0x100 == b && w / 0x1_0000 % 0x100 == c && w
                / 0x100_0000 == d) by (bit_vector)
                requires
                    w == d * 0x100_0000 + c * 0x1_0000 + b * 0x100 + a,
            ;
        }
    }
    assert(inode_image(words, tail) =~= bytes);
}

/// Two halves as one word.
fn join(low: u16, high: u16) -> (w: u32)
    ensures
        w == word_of(low, high),
{
    low as u32 + high as u32 * 0x1_0000
}

/// The low half of a word.
fn low(w: u32) -> (h: u16)
    ensures
        h == w % 0x1_0000,
{
    (w % 0x1_0000) as u16
}

/// The high half of a word.
fn high(w: u32) -> (h: u16)
    ensures
        h == w / 0x1_0000,
{
    (w / 0x1_0000) as u16
}

proof fn lemma_word_from_bytes(x: u32, y: u32)
    requires
        word_byte(x, 0) == word_byte(y, 0),
        word_byte(x, 1) == word_byte(y, 1),
        word_byte(x, 2) == word_byte(y, 2),
        word_byte(x, 3) == word_byte(y, 3),
    ensures
        x == y,
{
}

proof fn lemma_image_determines(a: Seq<u32>, s: Seq<u8>, b: Seq<u32>, t: Seq<u8>)
    requires
        a.len() == INODE_WORDS,
        b.len() == INODE_WORDS,
        s.len() == INODE_TAIL_SIZE,
        t.len() == INODE_TAIL_SIZE,
        inode_image(a, s) == inode_image(b, t),
    ensures
        a == b,
        s == t,
{
    let x = inode_image(a, s);
    let y = inode_image(b, t);
    assert forall|q: int| 0 <= q < INODE_WORDS implies a[q] == b[q] by {
        assert forall|k: int| 0 <= k < 4 implies #[trigger] word_byte(a[q], k) == word_byte(
            b[q],
            k,
        ) by {
            let i = 4 * q + k;
            assert(i / 4 == q && i % 4 == k);
            assert(x[i] == word_byte(a[i / 4], i % 4));
            assert(y[i] == word_byte(b[i / 4], i % 4));
        }
        lemma_word_from_bytes(a[q], b[q]);
    }
    assert(a =~= b);
    assert forall|i: int| 0 <= i < INODE_TAIL_SIZE implies s[i] == t[i] by {
        let j = 160 + i;
        assert(x[j] == s[j - 160]);
        assert(y[j] == t[j - 160]);
    }
    assert(s =~= t);
}

/// An inode is determined by its bytes: two that have the same bytes have the
/// same words of fields and the same tail.
pub proof fn inode_image_is_faithful(a: RawInode, b: RawInode)
    requires
        a.image() == b.image(),
    ensures
        a.words() == b.words(),
        a.tail@ == b.tail@,
{
    lemma_image_determines(a.words(), a.tail@, b.words(), b.tail@);
}

/// Whether an inode of this size can be checksummed: it ends outside of the
/// checksum's halves.
pub open spec fn checksummable(inode_size: usize) -> bool {
    I_CHECKSUM_LO_OFFSET + 2 <= inode_size <= BASIC_INODE_SIZE || I_CHECKSUM_HI_OFFSET + 2
        <= inode_size <= INODE_SIZE
}

/// The bytes of an inode that its checksum covers, with the checksum itself
/// taken as zero.
pub open spec fn covered(image: Seq<u8>, inode_size: usize) -> Seq<u8> {
    let low = zeroed(image.take(inode_size as int), I_CHECKSUM_LO_OFFSET as int, 2);
    if inode_size > BASIC_INODE_SIZE {
        zeroed(low, I_CHECKSUM_HI_OFFSET as int, 2)
    } else {
        low
    }
}

/// The checksum of an inode.
pub open spec fn inode_csum(raw: RawInode, seed: InodeCsumSeed, inode_size: usize) -> u32 {
    crc(seed.0, covered(raw.image(), inode_size))
}

/// Computes the checksum of an inode: that of its bytes with both halves of
/// the checksum taken as zero.
pub fn inode_checksum(raw: &RawInode, seed: InodeCsumSeed, inode_size: usize) -> (csum: u32)
    requires
        checksummable(inode_size),
    ensures
        csum == inode_csum(*raw, seed, inode_size),
{
    let bytes = raw.as_bytes();
    let hole = [0u8; 2];
    assert(hole@ =~= zeros(2));
    let head: u32 = crc32c(seed.0, &bytes[0..I_CHECKSUM_LO_OFFSET]);
    let lo: u32 = crc32c(head, &hole);
    let ghost image = bytes@;
    let ghost all = covered(image, inode_size);
    let ghost part0 = image.subrange(0, I_CHECKSUM_LO_OFFSET as int);
    proof {
        lemma_crc_chains(seed.0, part0, zeros(2));
    }
    if inode_size > BASIC_INODE_SIZE {
        let gap: u32 = crc32c(lo, &bytes[I_CHECKSUM_LO_OFFSET + 2..I_CHECKSUM_HI_OFFSET]);
        let hi: u32 = crc32c(gap, &hole);
        proof {
            let part1 = image.subrange(I_CHECKSUM_LO_OFFSET + 2, I_CHECKSUM_HI_OFFSET as int);
            let part2 = image.subrange(I_CHECKSUM_HI_OFFSET + 2, inode_size as int);
            lemma_crc_chains(seed.0, part0 + zeros(2), part1);
            lemma_crc_chains(seed.0, part0 + zeros(2) + part1, zeros(2));
            lemma_crc_chains(seed.0, part0 + zeros(2) + part1 + zeros(2), part2);
            assert(part0 + zeros(2) + part1 + zeros(2) + part2 =~= all);
        }
        crc32c(hi, &bytes[I_CHECKSUM_HI_OFFSET + 2..inode_size])
    } else {
        proof {
            let part1 = image.subrange(I_CHECKSUM_LO_OFFSET + 2, inode_size as int);
            lemma_crc_chains(seed.0, part0 + zeros(2), part1);
            assert(part0 + zeros(2) + part1 =~= all);
        }
        crc32c(lo, &bytes[I_CHECKSUM_LO_OFFSET + 2..inode_size])
    }
}

/// The first half of an inode's checksum that is wrong.
pub open spec fn checksum_fault(raw: RawInode, seed: InodeCsumSeed, inode_size: usize) -> Option<
    Error,
> {
    let csum = inode_csum(raw, seed, inode_size);
    if raw.checksum_lo != csum % 0x1_0000 {
        Some(Error::InodeChecksumLo)
    } else if inode_size > BASIC_INODE_SIZE && raw.checksum_hi != csum / 0x1_0000 {
        Some(Error::InodeChecksumHi)
    } else {
        None
    }
}

/// Checks the checksum of an inode. One of the basic size has only the low
/// half.
pub fn verify_inode_checksum(raw: &RawInode, seed: InodeCsumSeed, inode_size: usize) -> (r: Result<
    (),
    Error,
>)
    requires
        checksummable(inode_size),
    ensures
        match checksum_fault(*raw, seed, inode_size) {
            Some(e) => r == Err::<(), Error>(e),
            None => r is Ok,
        },
{
    let csum: u32 = inode_checksum(raw, seed, inode_size);
    if raw.checksum_lo as u32 != csum % 0x1_0000 {
        return Err(Error::InodeChecksumLo);
    }
    if inode_size > BASIC_INODE_SIZE && raw.checksum_hi as u32 != csum / 0x1_0000 {
        return Err(Error::InodeChecksumHi);
    }
    Ok(())
}

/// An inode with its checksum in place.
pub open spec fn with_checksum(raw: RawInode, seed: InodeCsumSeed, inode_size: usize) -> RawInode {
    let csum = inode_csum(raw, seed, inode_size);
    RawInode {
        checksum_lo: (csum % 0x1_0000) as u16,
        checksum_hi: if inode_size > BASIC_INODE_SIZE {
            (csum / 0x1_0000) as u16
        } else {
            raw.checksum_hi
        },
        ..raw
    }
}

/// Puts the checksum of an inode in place.
pub fn stamp_inode_checksum(raw: &mut RawInode, seed: InodeCsumSeed, inode_size: usize)
    requires
        checksummable(inode_size),
    ensures
        *final(raw) == with_checksum(*old(raw), seed, inode_size),
{
    let csum: u32 = inode_checksum(&*raw, seed, inode_size);
    raw.checksum_lo = (csum % 0x1_0000) as u16;
    if inode_size > BASIC_INODE_SIZE {
        raw.checksum_hi = (csum / 0x1_0000) as u16;
    }
}

proof fn lemma_halves(low: u16, high: u16)
    ensures
        word_of(low, high) % 0x1_0000 == low,
        word_of(low, high) / 0x1_0000 == high,
        word_byte(word_of(low, high), 0) == low % 0x100,
        word_byte(word_of(low, high), 1) == low / 0x100,
        word_byte(word_of(low, high), 2) == high % 0x100,
        word_byte(word_of(low, high), 3) == high / 0x100,
{
    let l = low as u32;
    let h = high as u32;
    let w = word_of(low, high);
    assert(w % 0x1_0000 == l && w / 0x1_0000 == h && w % 0x100 == l % 0x100 && w / 0x100 % 0x100
        == l / 0x100 && w / 0x1_0000 % 0x100 == h % 0x100 && w / 0x100_0000 == h / 0x100)
        by (bit_vector)
        requires
            w == l + h * 0x1_0000,
            l <= 0xFFFF,
            h <= 0xFFFF,
    ;
}

proof fn lemma_covered_agrees(v: Seq<u32>, w: Seq<u32>, tail: Seq<u8>, inode_size: usize)
    requires
        checksummable(inode_size),
        v.len() == INODE_WORDS,
        w.len() == INODE_WORDS,
        forall|q: int| 0 <= q < INODE_WORDS && q != 31 && q != 32 ==> v[q] == w[q],
        word_byte(v[31], 2) == word_byte(w[31], 2),
        word_byte(v[31], 3) == word_byte(w[31], 3),
        word_byte(v[32], 0) == word_byte(w[32], 0),
        word_byte(v[32], 1) == word_byte(w[32], 1),
    ensures
        covered(inode_image(v, tail), inode_size) == covered(inode_image(w, tail), inode_size),
{
    let x = inode_image(v, tail);
    let y = inode_image(w, tail);
    assert forall|i: int|
        0 <= i < inode_size && !(I_CHECKSUM_LO_OFFSET <= i < I_CHECKSUM_LO_OFFSET + 2) && !(
        I_CHECKSUM_HI_OFFSET <= i < I_CHECKSUM_HI_OFFSET + 2) implies x[i] == y[i] by {
        if i < 160 {
            if i / 4 == 31 {
                assert(i % 4 == 2 || i % 4 == 3);
            } else if i / 4 == 32 {
                assert(i % 4 == 0 || i % 4 == 1);
            } else {
                assert(v[i / 4] == w[i / 4]);
            }
        }
    }
    assert(covered(x, inode_size) =~= covered(y, inode_size));
}

/// The checksum's own halves are not covered by it.
proof fn lemma_checksum_not_covered(raw: RawInode, lo: u16, hi: u16, inode_size: usize)
    requires
        checksummable(inode_size),
    ensures
        covered((RawInode { checksum_lo: lo, checksum_hi: hi, ..raw }).image(), inode_size)
            == covered(raw.image(), inode_size),
{
    let other = RawInode { checksum_lo: lo, checksum_hi: hi, ..raw };
    lemma_halves(raw.checksum_lo, raw.osd2_reserved);
    lemma_halves(lo, raw.osd2_reserved);
    lemma_halves(raw.extra_isize, raw.checksum_hi);
    lemma_halves(raw.extra_isize, hi);
    lemma_covered_agrees(other.words(), raw.words(), raw.tail@, inode_size);
}

/// An inode that was stamped passes the check of its checksum.
pub proof fn stamped_inode_verifies(raw: RawInode, seed: InodeCsumSeed, inode_size: usize)
    requires
        checksummable(inode_size),
    ensures
        checksum_fault(with_checksum(raw, seed, inode_size), seed, inode_size) is None,
{
    let new = with_checksum(raw, seed, inode_size);
    lemma_checksum_not_covered(raw, new.checksum_lo, new.checksum_hi, inode_size);
    assert(new == RawInode { checksum_lo: new.checksum_lo, checksum_hi: new.checksum_hi, ..raw });
}

/// What seeds the checksums of a filesystem.
#[derive(Clone, Copy, Debug, PartialEq, Eq, Structural)]
pub struct FsCsumSeed(pub u32);

/// What seeds the checksums of one inode.
#[derive(Clone, Copy, Debug, PartialEq, Eq, Structural)]
pub struct InodeCsumSeed(pub u32);

impl FsCsumSeed {
    /// Folds the number and the generation of an inode into the seed.
    pub fn derive_inode(self, ino: u32, generation: u32) -> (seed: InodeCsumSeed)
        ensures
            seed.0 == crc(crc(self.0, le32(ino)), le32(generation)),
    {
        InodeCsumSeed(
            crc32c(crc32c(self.0, &le32_bytes(ino)), &le32_bytes(generation)),
        )
    }
}

} // verus!
