//! The journal superblock: its bytes, its checksum, its validated form, and
//! the feature upgrade of a fresh journal.

use vstd::prelude::*;

use crate::bytes::{
    be32, be32_at, be32_bytes, lemma_be32_at, read_be32, splice, write_bytes, zeroed, zeros,
    BLOCK_SIZE,
};
use crate::checksum::{crc, crc32c_around};
use crate::error::Error;
use crate::journal::format::{
    JournalCsumSeed, BLOCKTYPE_SUPERBLOCK_V1, BLOCKTYPE_SUPERBLOCK_V2, COMPAT_CHECKSUM,
    INCOMPAT_64BIT, INCOMPAT_CSUM_V2, INCOMPAT_CSUM_V3, JBD2_CRC32C_CHKSUM, JBD2_MAGIC,
};
use crate::journal::tag::TagLayout;
use crate::journal::tid::Tid;

verus! {

/// Bytes of the journal superblock.
pub const JOURNAL_SUPERBLOCK_SIZE: usize = 1024;

/// Offset of the block type.
pub const H_BLOCKTYPE: usize = 4;

/// Offset of the journal's block size.
pub const S_BLOCKSIZE: usize = 12;

/// Offset of the number of log blocks.
pub const S_MAXLEN: usize = 16;

/// Offset of the first log block that holds log data.
pub const S_FIRST: usize = 20;

/// Offset of the first transaction id that recovery expects.
pub const S_SEQUENCE: usize = 24;

/// Offset of the log block where recovery starts. Zero there means clean.
pub const S_START: usize = 28;

/// Offset of the compatible features.
pub const S_FEATURE_COMPAT: usize = 36;

/// Offset of the incompatible features.
pub const S_FEATURE_INCOMPAT: usize = 40;

/// Offset of the read-only compatible features.
pub const S_FEATURE_RO_COMPAT: usize = 44;

/// Offset of the journal's UUID.
pub const S_UUID: usize = 48;

/// Offset of the checksum type.
pub const S_CHECKSUM_TYPE: usize = 80;

/// Offset of the log block where a clean journal goes on.
pub const S_HEAD: usize = 88;

/// Offset of the checksum.
pub const S_CHECKSUM: usize = 252;

/// The journal superblock as it stands on disk.
#[derive(Clone, Copy)]
pub struct RawJournalSuperblock {
    pub bytes: [u8; JOURNAL_SUPERBLOCK_SIZE],
}

/// The checksum of a superblock: that of its bytes with the checksum itself
/// taken as zero.
pub open spec fn superblock_csum(raw: Seq<u8>) -> u32 {
    crc(u32::MAX, zeroed(raw, S_CHECKSUM as int, 4))
}

/// Whether the incompatible features of `raw` call for a checksum.
pub open spec fn carries_csum(raw: Seq<u8>) -> bool {
    be32_at(raw, S_FEATURE_INCOMPAT as int) & (INCOMPAT_CSUM_V2 | INCOMPAT_CSUM_V3) != 0
}

/// `raw` as it goes to disk: with its checksum, where its features call for
/// one.
pub open spec fn stamped(raw: Seq<u8>) -> Seq<u8> {
    if carries_csum(raw) {
        splice(raw, S_CHECKSUM as int, be32(superblock_csum(raw)))
    } else {
        raw
    }
}

/// `raw` pointing at the log block `start` and the transaction `tid` as the
/// oldest that recovery has to replay.
pub open spec fn with_tail(raw: Seq<u8>, start: u32, tid: Tid) -> Seq<u8> {
    splice(splice(raw, S_START as int, be32(start)), S_SEQUENCE as int, be32(tid.0))
}

/// `raw` with nothing to replay: the next transaction is `tid`, and the log
/// goes on at `head`.
pub open spec fn with_clean_log(raw: Seq<u8>, tid: Tid, head: u32) -> Seq<u8> {
    splice(with_tail(raw, 0, tid), S_HEAD as int, be32(head))
}

/// The incompatible features that count: a superblock of version 1 has none.
pub open spec fn effective_features(raw: Seq<u8>) -> u32 {
    if be32_at(raw, H_BLOCKTYPE as int) == BLOCKTYPE_SUPERBLOCK_V2 {
        be32_at(raw, S_FEATURE_INCOMPAT as int)
    } else {
        0
    }
}

/// The seed that a superblock's UUID gives.
pub open spec fn seed_of(raw: Seq<u8>) -> JournalCsumSeed {
    JournalCsumSeed(crc(u32::MAX, raw.subrange(S_UUID as int, S_UUID + 16)))
}

/// The first thing that is wrong with a superblock.
pub open spec fn superblock_fault(raw: Seq<u8>) -> Option<Error> {
    let blocktype = be32_at(raw, H_BLOCKTYPE as int);
    let maxlen = be32_at(raw, S_MAXLEN as int);
    let first = be32_at(raw, S_FIRST as int);
    let features = effective_features(raw);
    let v2 = features & INCOMPAT_CSUM_V2 != 0;
    let v3 = features & INCOMPAT_CSUM_V3 != 0;
    if be32_at(raw, 0) != JBD2_MAGIC {
        Some(Error::BadSuperblockMagic)
    } else if blocktype != BLOCKTYPE_SUPERBLOCK_V2 && blocktype != BLOCKTYPE_SUPERBLOCK_V1 {
        Some(Error::BadSuperblockType)
    } else if be32_at(raw, S_BLOCKSIZE as int) != BLOCK_SIZE {
        Some(Error::BadBlockSize)
    } else if maxlen < 2 {
        Some(Error::JournalTooSmall)
    } else if first == 0 || first >= maxlen {
        Some(Error::FirstOutOfRange)
    } else if v2 && v3 {
        Some(Error::BothCsumV2V3)
    } else if (v2 || v3) && be32_at(raw, S_FEATURE_COMPAT as int) & COMPAT_CHECKSUM != 0 {
        Some(Error::BothChecksumVersions)
    } else if (v2 || v3) && raw[S_CHECKSUM_TYPE as int] != JBD2_CRC32C_CHKSUM {
        Some(Error::BadChecksumType)
    } else if (v2 || v3) && be32_at(raw, S_CHECKSUM as int) != superblock_csum(raw) {
        Some(Error::SuperblockChecksum)
    } else {
        None
    }
}

/// What a superblock without a fault says.
pub open spec fn superblock_content(raw: Seq<u8>) -> JournalSuperblock {
    let tag_layout = TagLayout::selected_by(effective_features(raw));
    JournalSuperblock {
        maxlen: be32_at(raw, S_MAXLEN as int),
        first: be32_at(raw, S_FIRST as int),
        sequence: Tid(be32_at(raw, S_SEQUENCE as int)),
        start: be32_at(raw, S_START as int),
        blocksize: be32_at(raw, S_BLOCKSIZE as int),
        tag_layout,
        csum_seed: if tag_layout.csum() {
            Some(seed_of(raw))
        } else {
            None
        },
    }
}

impl RawJournalSuperblock {
    /// Reads the word at `at`.
    pub fn word(&self, at: usize) -> (v: u32)
        requires
            at + 4 <= JOURNAL_SUPERBLOCK_SIZE,
        ensures
            v == be32_at(self.bytes@, at as int),
    {
        read_be32(&self.bytes, at)
    }

    /// Writes the word at `at`.
    pub fn set_word(&mut self, at: usize, v: u32)
        requires
            at + 4 <= JOURNAL_SUPERBLOCK_SIZE,
        ensures
            final(self).bytes@ == splice(old(self).bytes@, at as int, be32(v)),
    {
        write_bytes(&mut self.bytes, at, &be32_bytes(v));
    }

    /// The checksum that belongs into the superblock.
    pub fn checksum(&self) -> (csum: u32)
        ensures
            csum == superblock_csum(self.bytes@),
    {
        let hole = [0u8; 4];
        assert(hole@ =~= zeros(4));
        crc32c_around(u32::MAX, &self.bytes, S_CHECKSUM, &hole)
    }

    /// Puts the checksum in place, where the superblock's own features call
    /// for one.
    pub fn stamp_checksum(&mut self)
        ensures
            final(self).bytes@ == stamped(old(self).bytes@),
    {
        if self.word(S_FEATURE_INCOMPAT) & (INCOMPAT_CSUM_V2 | INCOMPAT_CSUM_V3) != 0 {
            let csum: u32 = self.checksum();
            self.set_word(S_CHECKSUM, csum);
        }
    }

    /// Points the superblock at the oldest transaction to replay, ready to be
    /// written.
    pub fn retail(&mut self, start: u32, tid: Tid)
        ensures
            final(self).bytes@ == stamped(with_tail(old(self).bytes@, start, tid)),
    {
        self.set_word(S_START, start);
        self.set_word(S_SEQUENCE, tid.get());
        self.stamp_checksum();
    }

    /// Marks the log as having nothing to replay, ready to be written.
    pub fn mark_clean(&mut self, next: Tid, head: u32)
        ensures
            final(self).bytes@ == stamped(with_clean_log(old(self).bytes@, next, head)),
    {
        self.set_word(S_START, 0);
        self.set_word(S_SEQUENCE, next.get());
        self.set_word(S_HEAD, head);
        self.stamp_checksum();
    }
}

/// The validated content of the journal superblock.
#[derive(Clone, Copy, Debug, PartialEq, Eq, Structural)]
pub struct JournalSuperblock {
    /// The number of log blocks.
    pub maxlen: u32,
    /// The first log block that holds log data.
    pub first: u32,
    /// The first transaction id that recovery expects.
    pub sequence: Tid,
    /// The log block where recovery starts. Zero means clean.
    pub start: u32,
    /// The block size.
    pub blocksize: u32,
    /// The geometry of descriptor tags.
    pub tag_layout: TagLayout,
    /// The seed of the log's checksums, where the journal has them.
    pub csum_seed: Option<JournalCsumSeed>,
}

impl JournalSuperblock {
    /// What holds of every superblock that was validated.
    pub open spec fn wf(self) -> bool {
        &&& 2 <= self.maxlen
        &&& 0 < self.first < self.maxlen
        &&& self.blocksize == BLOCK_SIZE
        &&& self.tag_layout.wf()
        &&& self.csum_seed is Some <==> self.tag_layout.csum()
    }

    /// Validates a superblock.
    pub fn try_from(raw: &RawJournalSuperblock) -> (r: Result<Self, Error>)
        ensures
            r is Ok <==> superblock_fault(raw.bytes@) is None,
            r matches Err(e) ==> superblock_fault(raw.bytes@) == Some(e),
            r matches Ok(sb) ==> sb == superblock_content(raw.bytes@) && sb.wf(),
    {
        if raw.word(0) != JBD2_MAGIC {
            return Err(Error::BadSuperblockMagic);
        }
        let blocktype: u32 = raw.word(H_BLOCKTYPE);
        if blocktype != BLOCKTYPE_SUPERBLOCK_V2 && blocktype != BLOCKTYPE_SUPERBLOCK_V1 {
            return Err(Error::BadSuperblockType);
        }
        let blocksize: u32 = raw.word(S_BLOCKSIZE);
        if blocksize != BLOCK_SIZE as u32 {
            return Err(Error::BadBlockSize);
        }
        let maxlen: u32 = raw.word(S_MAXLEN);
        if maxlen < 2 {
            return Err(Error::JournalTooSmall);
        }
        let first: u32 = raw.word(S_FIRST);
        if first == 0 || first >= maxlen {
            return Err(Error::FirstOutOfRange);
        }
        let feature_incompat: u32 = if blocktype == BLOCKTYPE_SUPERBLOCK_V2 {
            raw.word(S_FEATURE_INCOMPAT)
        } else {
            0
        };
        let tag_layout = match TagLayout::from_features(feature_incompat) {
            Ok(layout) => layout,
            Err(e) => {
                return Err(e);
            },
        };
        if tag_layout.has_csum() && raw.word(S_FEATURE_COMPAT) & COMPAT_CHECKSUM != 0 {
            return Err(Error::BothChecksumVersions);
        }
        let csum_seed = if tag_layout.has_csum() {
            if raw.bytes[S_CHECKSUM_TYPE] != JBD2_CRC32C_CHKSUM {
                return Err(Error::BadChecksumType);
            }
            if raw.word(S_CHECKSUM) != raw.checksum() {
                return Err(Error::SuperblockChecksum);
            }
            Some(Self::seed(raw))
        } else {
            None
        };
        Ok(
            JournalSuperblock {
                maxlen,
                first,
                sequence: Tid::new(raw.word(S_SEQUENCE)),
                start: raw.word(S_START),
                blocksize,
                tag_layout,
                csum_seed,
            },
        )
    }

    /// The seed that the UUID gives.
    fn seed(raw: &RawJournalSuperblock) -> (seed: JournalCsumSeed)
        ensures
            seed == seed_of(raw.bytes@),
    {
        let mut uuid = [0u8; 16];
        write_bytes(&mut uuid, 0, &raw.bytes[S_UUID..S_UUID + 16]);
        assert(uuid@ =~= raw.bytes@.subrange(S_UUID as int, S_UUID + 16));
        JournalCsumSeed::derive(&uuid)
    }

    /// The number of log blocks.
    pub fn maxlen(&self) -> (r: u32)
        ensures
            r == self.maxlen,
    {
        self.maxlen
    }

    /// The first log block that holds log data.
    pub fn first(&self) -> (r: u32)
        ensures
            r == self.first,
    {
        self.first
    }

    /// The first transaction id that recovery expects.
    pub fn sequence(&self) -> (r: Tid)
        ensures
            r == self.sequence,
    {
        self.sequence
    }

    /// The log block where recovery starts. Zero means clean.
    pub fn start(&self) -> (r: u32)
        ensures
            r == self.start,
    {
        self.start
    }

    /// The block size.
    pub fn blocksize(&self) -> (r: u32)
        ensures
            r == self.blocksize,
    {
        self.blocksize
    }

    /// The geometry of descriptor tags.
    pub fn tag_layout(&self) -> (r: TagLayout)
        ensures
            r == self.tag_layout,
    {
        self.tag_layout
    }

    /// The seed of the log's checksums, where the journal has them.
    pub fn csum_seed(&self) -> (r: Option<JournalCsumSeed>)
        ensures
            r == self.csum_seed,
    {
        self.csum_seed
    }
}

/// What the filesystem asks of its journal.
#[derive(Clone, Copy, Debug, PartialEq, Eq, Structural)]
pub struct JournalUpgradeNeeds {
    /// The filesystem checksums its metadata.
    pub fs_has_metadata_csum: bool,
    /// The filesystem has 64-bit block numbers.
    pub fs_is_64bit: bool,
}

/// Whether a journal is upgraded: the filesystem checksums its metadata, and
/// the journal is of version 2, without incompatible features and clean.
pub open spec fn upgrade_applies(raw: Seq<u8>, needs: JournalUpgradeNeeds) -> bool {
    &&& needs.fs_has_metadata_csum
    &&& be32_at(raw, H_BLOCKTYPE as int) == BLOCKTYPE_SUPERBLOCK_V2
    &&& be32_at(raw, S_FEATURE_INCOMPAT as int) == 0
    &&& be32_at(raw, S_START as int) == 0
}

/// The incompatible features that an upgrade sets.
pub open spec fn upgraded_features(needs: JournalUpgradeNeeds) -> u32 {
    if needs.fs_is_64bit {
        INCOMPAT_CSUM_V3 | INCOMPAT_64BIT
    } else {
        INCOMPAT_CSUM_V3
    }
}

/// `raw` with version 3 checksums, and with wide block numbers where the
/// filesystem has them.
pub open spec fn upgraded(raw: Seq<u8>, needs: JournalUpgradeNeeds) -> Seq<u8> {
    let featured = splice(raw, S_FEATURE_INCOMPAT as int, be32(upgraded_features(needs)));
    let typed = splice(featured, S_CHECKSUM_TYPE as int, seq![JBD2_CRC32C_CHKSUM]);
    splice(
        typed,
        S_FEATURE_COMPAT as int,
        be32(be32_at(raw, S_FEATURE_COMPAT as int) & !COMPAT_CHECKSUM),
    )
}

/// Decides on the upgrade of a journal at mount time, and gives the superblock
/// to be written, if any. A journal that has features, or that is not clean,
/// stays as it is. For a filesystem without metadata checksums nothing has to
/// be read: see [`upgrade_reads_superblock`].
pub fn upgrade_journal_on_mount(raw: &RawJournalSuperblock, needs: JournalUpgradeNeeds) -> (r:
    Option<RawJournalSuperblock>)
    ensures
        r is Some <==> upgrade_applies(raw.bytes@, needs),
        r matches Some(new) ==> new.bytes@ == stamped(upgraded(raw.bytes@, needs)),
{
    if !upgrade_reads_superblock(needs) {
        return None;
    }
    if raw.word(H_BLOCKTYPE) != BLOCKTYPE_SUPERBLOCK_V2 {
        return None;
    }
    if raw.word(S_FEATURE_INCOMPAT) != 0 {
        return None;
    }
    if raw.word(S_START) != 0 {
        return None;
    }
    let incompat: u32 = if needs.fs_is_64bit {
        INCOMPAT_CSUM_V3 | INCOMPAT_64BIT
    } else {
        INCOMPAT_CSUM_V3
    };
    let compat: u32 = raw.word(S_FEATURE_COMPAT) & !COMPAT_CHECKSUM;
    let mut new = *raw;
    new.set_word(S_FEATURE_INCOMPAT, incompat);
    let kind = [JBD2_CRC32C_CHKSUM];
    assert(kind@ =~= seq![JBD2_CRC32C_CHKSUM]);
    write_bytes(&mut new.bytes, S_CHECKSUM_TYPE, &kind);
    new.set_word(S_FEATURE_COMPAT, compat);
    new.stamp_checksum();
    Some(new)
}

/// Whether the decision on an upgrade needs the superblock at all.
pub fn upgrade_reads_superblock(needs: JournalUpgradeNeeds) -> (r: bool)
    ensures
        r == needs.fs_has_metadata_csum,
{
    needs.fs_has_metadata_csum
}

/// A word that was written is read back.
proof fn lemma_word_written(raw: Seq<u8>, at: int, v: u32)
    requires
        0 <= at,
        at + 4 <= raw.len(),
    ensures
        be32_at(splice(raw, at, be32(v)), at) == v,
{
    lemma_be32_at(splice(raw, at, be32(v)), at, v);
}

/// Stamping changes nothing but the checksum, which then is right.
proof fn lemma_stamp(raw: Seq<u8>)
    requires
        raw.len() == JOURNAL_SUPERBLOCK_SIZE,
    ensures
        stamped(raw).len() == raw.len(),
        forall|i: int| 0 <= i < S_CHECKSUM ==> stamped(raw)[i] == raw[i],
        carries_csum(raw) ==> be32_at(stamped(raw), S_CHECKSUM as int) == superblock_csum(
            stamped(raw),
        ),
{
    if carries_csum(raw) {
        lemma_word_written(raw, S_CHECKSUM as int, superblock_csum(raw));
        assert(zeroed(stamped(raw), S_CHECKSUM as int, 4) =~= zeroed(raw, S_CHECKSUM as int, 4));
    }
}

proof fn lemma_csum_bits(features: u32)
    by (bit_vector)
    ensures
        features & (0x8u32 | 0x10u32) != 0 <==> (features & 0x8u32 != 0 || features & 0x10u32
            != 0),
{
}

/// Words whose bytes are equal are equal.
proof fn lemma_same_word(a: Seq<u8>, b: Seq<u8>, at: int)
    requires
        a[at] == b[at],
        a[at + 1] == b[at + 1],
        a[at + 2] == b[at + 2],
        a[at + 3] == b[at + 3],
    ensures
        be32_at(a, at) == be32_at(b, at),
{
}

/// A superblock that differs from one that parses only in its tail, its head
/// and its checksum, and whose checksum is right, parses too.
proof fn lemma_same_journal(raw: Seq<u8>, new: Seq<u8>)
    requires
        raw.len() == JOURNAL_SUPERBLOCK_SIZE,
        new.len() == JOURNAL_SUPERBLOCK_SIZE,
        superblock_fault(raw) is None,
        forall|i: int|
            0 <= i < S_CHECKSUM && !(S_SEQUENCE <= i < S_START + 4) && !(S_HEAD <= i < S_HEAD + 4)
                ==> new[i] == raw[i],
        carries_csum(raw) ==> be32_at(new, S_CHECKSUM as int) == superblock_csum(new),
    ensures
        superblock_fault(new) is None,
        superblock_content(new) == (JournalSuperblock {
            start: be32_at(new, S_START as int),
            sequence: Tid(be32_at(new, S_SEQUENCE as int)),
            ..superblock_content(raw)
        }),
{
    lemma_same_word(new, raw, 0);
    lemma_same_word(new, raw, H_BLOCKTYPE as int);
    lemma_same_word(new, raw, S_BLOCKSIZE as int);
    lemma_same_word(new, raw, S_MAXLEN as int);
    lemma_same_word(new, raw, S_FIRST as int);
    lemma_same_word(new, raw, S_FEATURE_COMPAT as int);
    lemma_same_word(new, raw, S_FEATURE_INCOMPAT as int);
    lemma_csum_bits(effective_features(raw));
    assert(0u32 & 0x8 == 0 && 0u32 & 0x10 == 0) by (bit_vector);
    assert(new.subrange(48, 64) =~= raw.subrange(48, 64));
}

/// Moving the tail in a superblock that parses gives one that parses, and says
/// the same but for the tail.
pub proof fn retailed_superblock_parses(raw: Seq<u8>, start: u32, tid: Tid)
    requires
        raw.len() == JOURNAL_SUPERBLOCK_SIZE,
        superblock_fault(raw) is None,
    ensures
        superblock_fault(stamped(with_tail(raw, start, tid))) is None,
        superblock_content(stamped(with_tail(raw, start, tid))) == (JournalSuperblock {
            start,
            sequence: tid,
            ..superblock_content(raw)
        }),
{
    let new = with_tail(raw, start, tid);
    let out = stamped(new);
    lemma_stamp(new);
    lemma_same_word(new, raw, S_FEATURE_INCOMPAT as int);
    lemma_same_journal(raw, out);
    lemma_be32_at(out, S_START as int, start);
    lemma_be32_at(out, S_SEQUENCE as int, tid.0);
}

/// Marking the log clean in a superblock that parses gives one that parses,
/// and says the same but for the log being empty.
pub proof fn cleaned_superblock_parses(raw: Seq<u8>, tid: Tid, head: u32)
    requires
        raw.len() == JOURNAL_SUPERBLOCK_SIZE,
        superblock_fault(raw) is None,
    ensures
        superblock_fault(stamped(with_clean_log(raw, tid, head))) is None,
        superblock_content(stamped(with_clean_log(raw, tid, head))) == (JournalSuperblock {
            start: 0,
            sequence: tid,
            ..superblock_content(raw)
        }),
        be32_at(stamped(with_clean_log(raw, tid, head)), S_HEAD as int) == head,
{
    let new = with_clean_log(raw, tid, head);
    let out = stamped(new);
    lemma_stamp(new);
    lemma_same_word(new, raw, S_FEATURE_INCOMPAT as int);
    lemma_same_journal(raw, out);
    lemma_be32_at(out, S_START as int, 0);
    lemma_be32_at(out, S_SEQUENCE as int, tid.0);
    lemma_be32_at(out, S_HEAD as int, head);
}

/// An upgraded journal parses, with version 3 checksums seeded by its UUID,
/// and with the geometry of the log that it had.
pub proof fn upgraded_superblock_parses(raw: Seq<u8>, needs: JournalUpgradeNeeds)
    requires
        raw.len() == JOURNAL_SUPERBLOCK_SIZE,
        superblock_fault(raw) is None,
        upgrade_applies(raw, needs),
    ensures
        superblock_fault(stamped(upgraded(raw, needs))) is None,
        superblock_content(stamped(upgraded(raw, needs))) == (JournalSuperblock {
            tag_layout: TagLayout {
                tag_bytes: 16,
                has_blocknr_high: needs.fs_is_64bit,
                csum_v3: true,
                descriptor_tail_bytes: 4,
            },
            csum_seed: Some(seed_of(raw)),
            ..superblock_content(raw)
        }),
{
    let new = upgraded(raw, needs);
    let features = upgraded_features(needs);
    let compat = be32_at(raw, S_FEATURE_COMPAT as int);
    assert(0x10u32 & 0x8 == 0 && 0x10u32 & 0x10 != 0 && 0x10u32 & 2 == 0 && (0x10u32 | 0x2) & 0x8
        == 0 && (0x10u32 | 0x2) & 0x10 != 0 && (0x10u32 | 0x2) & 2 != 0) by (bit_vector);
    assert((compat & !0x1u32) & 0x1 == 0) by (bit_vector);
    lemma_csum_bits(features);
    let featured = splice(raw, S_FEATURE_INCOMPAT as int, be32(features));
    let typed = splice(featured, S_CHECKSUM_TYPE as int, seq![JBD2_CRC32C_CHKSUM]);
    lemma_word_written(raw, S_FEATURE_INCOMPAT as int, features);
    lemma_word_written(typed, S_FEATURE_COMPAT as int, compat & !COMPAT_CHECKSUM);
    assert(be32_at(new, S_FEATURE_INCOMPAT as int) == features);
    lemma_stamp(new);
    assert(stamped(new).subrange(48, 64) =~= raw.subrange(48, 64));
}

} // verus!
