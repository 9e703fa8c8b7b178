//! Fixed numbers of the log format, the block header and the checksums of log
//! blocks.

use vstd::prelude::*;

use crate::bytes::{
    be32, be32_at, be32_bytes, lemma_be32_at, read_be32, splice, write_bytes, zero_block, zeroed,
    zeros, BLOCK_SIZE,
};
use crate::checksum::{crc, crc32c, crc32c_around, lemma_crc_detects_byte};
use crate::journal::tid::Tid;

verus! {

/// First word of every log block that is not a data block.
pub const JBD2_MAGIC: u32 = 0xC03B_3998;

/// A block that lists the home blocks of the data blocks behind it.
pub const BLOCKTYPE_DESCRIPTOR: u32 = 1;

/// A block that seals a transaction.
pub const BLOCKTYPE_COMMIT: u32 = 2;

/// A journal superblock of version 1.
pub const BLOCKTYPE_SUPERBLOCK_V1: u32 = 3;

/// A journal superblock of version 2.
pub const BLOCKTYPE_SUPERBLOCK_V2: u32 = 4;

/// A block that lists blocks which older transactions must not restore.
pub const BLOCKTYPE_REVOKE: u32 = 5;

/// The logged block began with [`JBD2_MAGIC`]; its first word is zero in the log.
pub const TAG_FLAG_ESCAPE: u16 = 1;

/// No UUID follows this tag.
pub const TAG_FLAG_SAME_UUID: u16 = 2;

/// The last tag of its descriptor.
pub const TAG_FLAG_LAST_TAG: u16 = 8;

/// The v1 checksum of commit blocks.
pub const COMPAT_CHECKSUM: u32 = 0x1;

/// Revoke records.
pub const INCOMPAT_REVOKE: u32 = 0x1;

/// 64-bit block numbers.
pub const INCOMPAT_64BIT: u32 = 0x2;

/// Commit blocks that may precede their data.
pub const INCOMPAT_ASYNC_COMMIT: u32 = 0x4;

/// Version 2 checksums.
pub const INCOMPAT_CSUM_V2: u32 = 0x8;

/// Version 3 checksums.
pub const INCOMPAT_CSUM_V3: u32 = 0x10;

/// A fast-commit area.
pub const INCOMPAT_FAST_COMMIT: u32 = 0x20;

/// The incompatible features a mount admits.
pub const INCOMPAT_SUPP: u32 = 0x1B;

/// The checksum type of crc32c.
pub const JBD2_CRC32C_CHKSUM: u8 = 4;

/// Bytes of a block header.
pub const JOURNAL_HEADER_SIZE: usize = 12;

/// Bytes of the checksum that ends a descriptor or a revoke block.
pub const DESCRIPTOR_TAIL_BYTES: usize = 4;

/// Bytes of a commit block that carry data.
pub const COMMIT_BLOCK_SIZE: usize = 60;

/// Where a commit block keeps its checksum.
pub const COMMIT_CHKSUM_OFFSET: usize = 16;

/// The header that starts every log block that is not a data block.
#[derive(Clone, Copy, Debug, PartialEq, Eq, Structural)]
pub struct RawJournalHeader {
    pub h_magic: u32,
    pub h_blocktype: u32,
    pub h_sequence: u32,
}

/// The header that a block starts with.
pub open spec fn header_of(block: Seq<u8>) -> RawJournalHeader {
    RawJournalHeader {
        h_magic: be32_at(block, 0),
        h_blocktype: be32_at(block, 4),
        h_sequence: be32_at(block, 8),
    }
}

/// The bytes of a header of the type `blocktype` for the transaction `tid`.
pub open spec fn header_bytes(blocktype: u32, tid: Tid) -> Seq<u8> {
    be32(JBD2_MAGIC) + be32(blocktype) + be32(tid.0)
}

/// A block of zeros behind a header.
pub open spec fn header_block(blocktype: u32, tid: Tid) -> Seq<u8> {
    splice(zeros(BLOCK_SIZE as nat), 0, header_bytes(blocktype, tid))
}

impl RawJournalHeader {
    /// Reads the header of a block.
    pub fn parse(block: &[u8; BLOCK_SIZE]) -> (header: Self)
        ensures
            header == header_of(block@),
    {
        RawJournalHeader {
            h_magic: read_be32(block, 0),
            h_blocktype: read_be32(block, 4),
            h_sequence: read_be32(block, 8),
        }
    }
}

/// A header that was written is read back.
pub proof fn lemma_header_round_trips(block: Seq<u8>, blocktype: u32, tid: Tid)
    requires
        block.len() == BLOCK_SIZE,
        block.take(JOURNAL_HEADER_SIZE as int) == header_bytes(blocktype, tid),
    ensures
        header_of(block) == (RawJournalHeader {
            h_magic: JBD2_MAGIC,
            h_blocktype: blocktype,
            h_sequence: tid.0,
        }),
{
    let h = header_bytes(blocktype, tid);
    assert forall|i: int| 0 <= i < 12 implies block[i] == h[i] by {
        assert(block.take(12)[i] == h[i]);
    }
    lemma_be32_at(block, 0, JBD2_MAGIC);
    lemma_be32_at(block, 4, blocktype);
    lemma_be32_at(block, 8, tid.0);
}

/// Makes a block of zeros behind a header.
pub fn new_block(blocktype: u32, tid: Tid) -> (block: [u8; BLOCK_SIZE])
    ensures
        block@ == header_block(blocktype, tid),
{
    let mut block = zero_block();
    write_bytes(&mut block, 0, &be32_bytes(JBD2_MAGIC));
    write_bytes(&mut block, 4, &be32_bytes(blocktype));
    write_bytes(&mut block, 8, &be32_bytes(tid.get()));
    assert(block@ =~= header_block(blocktype, tid));
    block
}

/// The checksum that ends a descriptor or a revoke block: that of the block
/// with the checksum itself taken as zero.
pub open spec fn tail_csum(seed: JournalCsumSeed, block: Seq<u8>) -> u32 {
    crc(seed.0, zeroed(block, BLOCK_SIZE - DESCRIPTOR_TAIL_BYTES, DESCRIPTOR_TAIL_BYTES as nat))
}

/// The checksum of a commit block: that of the block with the checksum itself
/// taken as zero.
pub open spec fn commit_csum(seed: JournalCsumSeed, block: Seq<u8>) -> u32 {
    crc(seed.0, zeroed(block, COMMIT_CHKSUM_OFFSET as int, 4))
}

/// The checksum of a data block, as it stands in the log, in the transaction
/// `tid`.
pub open spec fn data_csum(seed: JournalCsumSeed, tid: Tid, logged: Seq<u8>) -> u32 {
    crc(crc(seed.0, be32(tid.0)), logged)
}

/// `block` with its tail checksum in place.
pub open spec fn with_tail_csum(seed: JournalCsumSeed, block: Seq<u8>) -> Seq<u8> {
    splice(block, BLOCK_SIZE - DESCRIPTOR_TAIL_BYTES, be32(tail_csum(seed, block)))
}

/// `block` with its commit checksum in place.
pub open spec fn with_commit_csum(seed: JournalCsumSeed, block: Seq<u8>) -> Seq<u8> {
    splice(block, COMMIT_CHKSUM_OFFSET as int, be32(commit_csum(seed, block)))
}

/// Whether the tail checksum in `block` is right.
pub open spec fn tail_csum_ok(seed: JournalCsumSeed, block: Seq<u8>) -> bool {
    be32_at(block, BLOCK_SIZE - DESCRIPTOR_TAIL_BYTES) == tail_csum(seed, block)
}

/// Whether the commit checksum in `block` is right.
pub open spec fn commit_csum_ok(seed: JournalCsumSeed, block: Seq<u8>) -> bool {
    be32_at(block, COMMIT_CHKSUM_OFFSET as int) == commit_csum(seed, block)
}

/// The value that seeds the checksums of a journal's log blocks.
#[derive(Clone, Copy, Debug, PartialEq, Eq, Structural)]
pub struct JournalCsumSeed(pub u32);

impl JournalCsumSeed {
    /// Derives the seed from the journal's UUID.
    pub fn derive(uuid: &[u8; 16]) -> (seed: Self)
        ensures
            seed.0 == crc(u32::MAX, uuid@),
    {
        JournalCsumSeed(crc32c(u32::MAX, uuid))
    }

    /// The checksum that belongs in the tail of `block`.
    pub fn block_tail_csum(&self, block: &[u8; BLOCK_SIZE]) -> (csum: u32)
        ensures
            csum == tail_csum(*self, block@),
    {
        let hole = [0u8; DESCRIPTOR_TAIL_BYTES];
        assert(hole@ =~= zeros(4));
        crc32c_around(self.0, block, BLOCK_SIZE - DESCRIPTOR_TAIL_BYTES, &hole)
    }

    /// Whether the tail checksum in `block` is right.
    pub fn verify_block_tail(&self, block: &[u8; BLOCK_SIZE]) -> (ok: bool)
        ensures
            ok == tail_csum_ok(*self, block@),
    {
        read_be32(block, BLOCK_SIZE - DESCRIPTOR_TAIL_BYTES) == self.block_tail_csum(block)
    }

    /// Puts the tail checksum into `block`.
    pub fn stamp_block_tail(&self, block: &mut [u8; BLOCK_SIZE])
        ensures
            final(block)@ == with_tail_csum(*self, old(block)@),
    {
        let csum: u32 = self.block_tail_csum(&*block);
        write_bytes(block, BLOCK_SIZE - DESCRIPTOR_TAIL_BYTES, &be32_bytes(csum));
    }

    /// The checksum that belongs in the commit block `block`.
    pub fn commit_block_csum(&self, block: &[u8; BLOCK_SIZE]) -> (csum: u32)
        ensures
            csum == commit_csum(*self, block@),
    {
        let hole = [0u8; 4];
        assert(hole@ =~= zeros(4));
        crc32c_around(self.0, block, COMMIT_CHKSUM_OFFSET, &hole)
    }

    /// Puts the checksum into a commit block.
    pub fn stamp_commit_block(&self, block: &mut [u8; BLOCK_SIZE])
        ensures
            final(block)@ == with_commit_csum(*self, old(block)@),
    {
        let csum: u32 = self.commit_block_csum(&*block);
        write_bytes(block, COMMIT_CHKSUM_OFFSET, &be32_bytes(csum));
    }

    /// Whether the checksum in a commit block is right.
    pub fn verify_commit_block(&self, block: &[u8; BLOCK_SIZE]) -> (ok: bool)
        ensures
            ok == commit_csum_ok(*self, block@),
    {
        read_be32(block, COMMIT_CHKSUM_OFFSET) == self.commit_block_csum(block)
    }

    /// The checksum a tag holds of its data block, as the block stands in the
    /// log.
    pub fn data_block_csum(&self, tid: Tid, logged_block: &[u8; BLOCK_SIZE]) -> (csum: u32)
        ensures
            csum == data_csum(*self, tid, logged_block@),
    {
        let sequence: u32 = crc32c(self.0, &be32_bytes(tid.get()));
        crc32c(sequence, logged_block)
    }
}

/// A block whose tail was stamped passes the verification of its tail.
pub proof fn stamped_tail_verifies(seed: JournalCsumSeed, block: Seq<u8>)
    requires
        block.len() == BLOCK_SIZE,
    ensures
        tail_csum_ok(seed, with_tail_csum(seed, block)),
{
    let stamped = with_tail_csum(seed, block);
    let at = BLOCK_SIZE - DESCRIPTOR_TAIL_BYTES;
    assert(zeroed(stamped, at, 4) =~= zeroed(block, at, 4));
    lemma_be32_at(stamped, at, tail_csum(seed, block));
}

/// A commit block that was stamped passes its verification.
pub proof fn stamped_commit_verifies(seed: JournalCsumSeed, block: Seq<u8>)
    requires
        block.len() == BLOCK_SIZE,
    ensures
        commit_csum_ok(seed, with_commit_csum(seed, block)),
{
    let stamped = with_commit_csum(seed, block);
    let at = COMMIT_CHKSUM_OFFSET as int;
    assert(zeroed(stamped, at, 4) =~= zeroed(block, at, 4));
    lemma_be32_at(stamped, at, commit_csum(seed, block));
}

/// A change of one byte before the tail of a block that verified makes it fail.
pub proof fn tail_csum_detects_byte(seed: JournalCsumSeed, block: Seq<u8>, at: int, b: u8)
    requires
        block.len() == BLOCK_SIZE,
        tail_csum_ok(seed, block),
        0 <= at < BLOCK_SIZE - DESCRIPTOR_TAIL_BYTES,
        b != block[at],
    ensures
        !tail_csum_ok(seed, block.update(at, b)),
{
    let hole = BLOCK_SIZE - DESCRIPTOR_TAIL_BYTES;
    let other = block.update(at, b);
    lemma_crc_detects_byte(seed.0, zeroed(block, hole, 4), at, b);
    assert(zeroed(block, hole, 4).update(at, b) =~= zeroed(other, hole, 4));
}

/// A change of one byte of a logged block changes its checksum.
pub proof fn data_csum_detects_byte(
    seed: JournalCsumSeed,
    tid: Tid,
    logged: Seq<u8>,
    at: int,
    b: u8,
)
    requires
        0 <= at < logged.len(),
        b != logged[at],
    ensures
        data_csum(seed, tid, logged.update(at, b)) != data_csum(seed, tid, logged),
{
    lemma_crc_detects_byte(crc(seed.0, be32(tid.0)), logged, at, b);
}

} // verus!
