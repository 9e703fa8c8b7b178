//! What the blocks of a journal look like, byte by byte, and which journals are
//! taken.

use vstd::prelude::*;

use crate::bytes::{be16_at, be32, be32_at, lemma_be32_at, zeroed, BLOCK_SIZE};
use crate::checksum::{crc, lemma_crc_chains};
use crate::error::Error;
use crate::journal::apply::{check_chain_block, ChainBlock};
use crate::journal::chain::{build_commit_block, commit_block, CommitTime};
use crate::journal::descriptor::{logged_form, LoggedBlock};
use crate::journal::format::{
    header_bytes, lemma_header_round_trips, new_block, JournalCsumSeed, RawJournalHeader,
};
use crate::journal::geometry::{
    locate_journal, BlockMapper, JournalGeometry, JournalLocation, Mapping,
};
use crate::journal::revoke::{
    build_revoke_block, revoke_block, revoke_block_round_trips, revoke_capacity,
    revoke_entries_per_block, revoke_entry_bytes, revoked_entry,
};
use crate::journal::superblock::{
    stamped, upgrade_journal_on_mount, upgrade_reads_superblock, upgraded, with_clean_log,
    with_tail, JournalSuperblock, JournalUpgradeNeeds, RawJournalSuperblock,
};
use crate::journal::tag::{DescriptorTag, TagChecksum, TagCsumMode, TagLayout, TagWriter};
use crate::journal::tid::Tid;

verus! {

/// Whether a superblock asks for checksums: its kind knows features, and one of
/// the two features that bring checksums is on.
pub open spec fn asks_for_csum(raw: Seq<u8>) -> bool {
    be32_at(raw, 4) == 4 && (be32_at(raw, 40) & 8 != 0 || be32_at(raw, 40) & 0x10 != 0)
}

/// Whether the checksum of a superblock is right.
pub open spec fn csum_is_right(raw: Seq<u8>) -> bool {
    be32_at(raw, 252) == crc(0xFFFF_FFFF, zeroed(raw, 252, 4))
}

/// A journal superblock is taken where it has the number of the format, one of the
/// two kinds, blocks of 4096 bytes, and a log of at least one block behind it; and,
/// if it asks for checksums, where it asks for one kind of them, they are CRC32C,
/// and its own is right.
pub proof fn sound_superblocks_are_taken(
    raw: RawJournalSuperblock,
    r: Result<JournalSuperblock, Error>,
)
    requires
        call_ensures(JournalSuperblock::try_from, (&raw,), r),
    ensures
        ({
            let b = raw.bytes@;
            r is Ok <==> {
                &&& be32_at(b, 0) == 0xC03B_3998
                &&& be32_at(b, 4) == 3 || be32_at(b, 4) == 4
                &&& be32_at(b, 12) == 4096
                &&& be32_at(b, 16) >= 2
                &&& 0 < be32_at(b, 20) < be32_at(b, 16)
                &&& asks_for_csum(b) ==> {
                    &&& !(be32_at(b, 40) & 8 != 0 && be32_at(b, 40) & 0x10 != 0)
                    &&& be32_at(b, 36) & 1 == 0
                    &&& b[80] == 4
                    &&& csum_is_right(b)
                }
            }
        }),
        r matches Ok(sb) ==> {
            let b = raw.bytes@;
            &&& sb.maxlen == be32_at(b, 16)
            &&& sb.first == be32_at(b, 20)
            &&& sb.sequence.0 == be32_at(b, 24)
            &&& sb.start == be32_at(b, 28)
            &&& sb.blocksize == 4096
            &&& sb.csum_seed is Some <==> asks_for_csum(b)
            &&& sb.csum_seed matches Some(seed) ==> seed.0 == crc(0xFFFF_FFFF, b.subrange(48, 64))
            &&& sb.tag_layout.has_blocknr_high <==> be32_at(b, 4) == 4 && be32_at(b, 40) & 2 != 0
            &&& sb.tag_layout.csum_v3 <==> be32_at(b, 4) == 4 && be32_at(b, 40) & 0x10 != 0
        },
        // The first thing that is wrong is named.
        ({
            let b = raw.bytes@;
            let known = be32_at(b, 0) == 0xC03B_3998;
            let typed = known && (be32_at(b, 4) == 3 || be32_at(b, 4) == 4);
            let sized = typed && be32_at(b, 12) == 4096;
            let long = sized && be32_at(b, 16) >= 2;
            let placed = long && 0 < be32_at(b, 20) < be32_at(b, 16);
            let csum = placed && asks_for_csum(b);
            let both = be32_at(b, 40) & 8 != 0 && be32_at(b, 40) & 0x10 != 0;
            let old_csum = be32_at(b, 36) & 1 != 0;
            &&& !known <==> r == Err::<JournalSuperblock, Error>(Error::BadSuperblockMagic)
            &&& known && !typed <==> r == Err::<JournalSuperblock, Error>(Error::BadSuperblockType)
            &&& typed && !sized <==> r == Err::<JournalSuperblock, Error>(Error::BadBlockSize)
            &&& sized && !long <==> r == Err::<JournalSuperblock, Error>(Error::JournalTooSmall)
            &&& long && !placed <==> r == Err::<JournalSuperblock, Error>(Error::FirstOutOfRange)
            &&& csum && both <==> r == Err::<JournalSuperblock, Error>(Error::BothCsumV2V3)
            &&& csum && !both && old_csum <==> r == Err::<JournalSuperblock, Error>(
                Error::BothChecksumVersions,
            )
            &&& csum && !both && !old_csum && b[80] != 4 <==> r == Err::<JournalSuperblock, Error>(
                Error::BadChecksumType,
            )
            &&& csum && !both && !old_csum && b[80] == 4 && !csum_is_right(b) <==> r == Err::<
                JournalSuperblock,
                Error,
            >(Error::SuperblockChecksum)
        }),
{
    let f = be32_at(raw.bytes@, 40);
    assert(0u32 & 8 == 0 && 0u32 & 0x10 == 0 && 0u32 & 2 == 0) by (bit_vector);
}

/// A journal is loaded where its superblock is sound, its features are among the
/// four that are known, and its inode has all the blocks of the log. The log blocks
/// are then those of the inode, in their order.
pub proof fn sound_journals_are_loaded(
    block_map: Vec<u64>,
    raw: RawJournalSuperblock,
    sound: Result<JournalSuperblock, Error>,
    r: Result<JournalGeometry, Error>,
    log: u32,
    at: Option<u64>,
    home: Result<u64, Error>,
)
    requires
        block_map@.len() <= u32::MAX,
        call_ensures(JournalSuperblock::try_from, (&raw,), sound),
        call_ensures(JournalGeometry::load, (block_map, &raw), r),
        r matches Ok(geo) ==> call_ensures(JournalGeometry::log_block_to_physical, (&geo, log), at),
        r matches Ok(geo) ==> call_ensures(JournalGeometry::log_block, (&geo, log), home),
    ensures
        r is Ok <==> sound is Ok && be32_at(raw.bytes@, 16) <= block_map@.len() && (be32_at(
            raw.bytes@,
            4,
        ) == 4 ==> be32_at(raw.bytes@, 40) & !0x1Bu32 == 0 && be32_at(raw.bytes@, 44) == 0),
        r matches Ok(geo) ==> geo.superblock == sound->Ok_0,
        // Features are looked at first, and the length of the log last.
        ({
            let featured = be32_at(raw.bytes@, 4) == 4;
            let known = !featured || be32_at(raw.bytes@, 40) & !0x1Bu32 == 0;
            let writable = !featured || be32_at(raw.bytes@, 44) == 0;
            &&& !known <==> r == Err::<JournalGeometry, Error>(Error::UnsupportedIncompat)
            &&& known && !writable <==> r == Err::<JournalGeometry, Error>(
                Error::UnsupportedRoCompat,
            )
            &&& known && writable && sound is Err ==> r == Err::<JournalGeometry, Error>(
                sound->Err_0,
            )
            &&& known && writable && sound is Ok && be32_at(raw.bytes@, 16) > block_map@.len()
                <==> r == Err::<JournalGeometry, Error>(Error::MaxlenExceedsMap)
        }),
        r is Ok ==> at == (if log < be32_at(raw.bytes@, 16) {
            Some(block_map@[log as int])
        } else {
            None
        }),
        r is Ok ==> (at matches Some(block) ==> home == Ok::<u64, Error>(block)),
        r is Ok && at is None ==> home == Err::<u64, Error>(Error::LogBlockOutOfRange),
{
}

/// A journal is in inode 8 of the filesystem itself. Without one, nothing is read.
pub proof fn journals_are_found(location: JournalLocation, r: Result<Option<u32>, Error>)
    requires
        call_ensures(locate_journal, (location,), r),
    ensures
        !location.has_journal <==> r == Ok::<Option<u32>, Error>(None),
        location.has_journal && location.journal_ino == 8 && location.journal_dev == 0 <==> r
            == Ok::<Option<u32>, Error>(Some(8)),
        location.has_journal && location.journal_ino != 8 <==> r == Err::<Option<u32>, Error>(
            Error::UnsupportedJournalInode,
        ),
        location.has_journal && location.journal_ino == 8 && location.journal_dev != 0 <==> r
            == Err::<Option<u32>, Error>(Error::ExternalJournal),
{
}

/// The blocks of the journal are counted from its size, which has to be one that a
/// log can have.
pub proof fn journal_blocks_are_counted(
    extent_based: bool,
    size: u64,
    r: Result<BlockMapper, Error>,
    wanted: Option<u32>,
)
    requires
        call_ensures(BlockMapper::start, (extent_based, size), r),
        r matches Ok(mapper) ==> call_ensures(BlockMapper::wanted, (&mapper,), wanted),
    ensures
        r is Ok <==> extent_based && 4096 < size <= 0xFFFF_FFFF * 4096,
        r matches Ok(mapper) ==> size <= mapper.nblocks * 4096 < size + 4096 && wanted == Some(0u32),
        !extent_based <==> r == Err::<BlockMapper, Error>(Error::JournalNotExtents),
        extent_based && size <= 4096 <==> r == Err::<BlockMapper, Error>(
            Error::JournalInodeTooSmall,
        ),
        extent_based && size > 0xFFFF_FFFF * 4096 <==> r == Err::<BlockMapper, Error>(
            Error::JournalInodeTooLarge,
        ),
{
}

/// A run of written blocks is taken as far as blocks are wanted; a hole, or a run
/// that was never written, is refused.
pub proof fn journal_blocks_are_mapped(
    mapper: &mut BlockMapper,
    mapping: Mapping,
    r: Result<(), Error>,
    wanted: Option<u32>,
    k: int,
)
    requires
        old(mapper).wf(),
        mapping matches Mapping::Mapped { pblock, len, .. } ==> pblock + len <= u64::MAX,
        call_ensures(BlockMapper::on_mapping, (mapper, mapping), r),
        call_ensures(BlockMapper::wanted, (&*final(mapper),), wanted),
    ensures
        r is Ok <==> mapping is Mapped && mapping->written,
        r matches Err(e) ==> e == Error::JournalUnmappedBlock && final(mapper).map@ == old(
            mapper,
        ).map@,
        final(mapper).nblocks == old(mapper).nblocks,
        0 <= k < old(mapper).map@.len() ==> final(mapper).map@[k] == old(mapper).map@[k],
        r is Ok && old(mapper).map@.len() <= k < final(mapper).map@.len() ==> final(mapper).map@[k]
            == mapping->pblock + (k - old(mapper).map@.len()),
        r is Ok ==> final(mapper).map@.len() == old(mapper).map@.len() + mapping->Mapped_len || final(
            mapper).map@.len() == final(mapper).nblocks,
        r is Ok ==> final(mapper).map@.len() <= old(mapper).map@.len() + mapping->Mapped_len,
        wanted is None <==> final(mapper).map@.len() == final(mapper).nblocks,
        wanted matches Some(block) ==> block == final(mapper).map@.len(),
{
}

/// Moving the tail changes the two words that name it, and the checksum where there
/// is one, which is then right; and nothing else.
pub proof fn moving_the_tail_is_local(
    raw: &mut RawJournalSuperblock,
    start: u32,
    tid: Tid,
    i: int,
)
    requires
        call_ensures(RawJournalSuperblock::retail, (raw, start, tid), ()),
        0 <= i < 1024,
    ensures
        be32_at(final(raw).bytes@, 24) == tid.0,
        be32_at(final(raw).bytes@, 28) == start,
        !(24 <= i < 32) && !(252 <= i < 256) ==> final(raw).bytes@[i] == old(raw).bytes@[i],
        be32_at(old(raw).bytes@, 40) & 0x18 == 0 && !(24 <= i < 32) ==> final(raw).bytes@[i] == old(
            raw,
        ).bytes@[i],
        be32_at(old(raw).bytes@, 40) & 0x18 != 0 ==> csum_is_right(final(raw).bytes@),
{
    let b = final(raw).bytes@;
    let plain = with_tail(old(raw).bytes@, start, tid);
    lemma_stamped(plain);
    assert(be32_at(plain, 40) == be32_at(old(raw).bytes@, 40));
    lemma_be32_at(b, 24, tid.0);
    lemma_be32_at(b, 28, start);
}

/// A clean log starts nowhere. Where it goes on, and with which transaction, is
/// noted; and nothing else changes but the checksum, where there is one.
pub proof fn cleaning_the_log_is_local(
    raw: &mut RawJournalSuperblock,
    next: Tid,
    head: u32,
    i: int,
)
    requires
        call_ensures(RawJournalSuperblock::mark_clean, (raw, next, head), ()),
        0 <= i < 1024,
    ensures
        be32_at(final(raw).bytes@, 24) == next.0,
        be32_at(final(raw).bytes@, 28) == 0,
        be32_at(final(raw).bytes@, 88) == head,
        !(24 <= i < 32) && !(88 <= i < 92) && !(252 <= i < 256) ==> final(raw).bytes@[i] == old(
            raw,
        ).bytes@[i],
        be32_at(old(raw).bytes@, 40) & 0x18 != 0 ==> csum_is_right(final(raw).bytes@),
{
    let b = final(raw).bytes@;
    let plain = with_clean_log(old(raw).bytes@, next, head);
    lemma_stamped(plain);
    assert(be32_at(plain, 40) == be32_at(old(raw).bytes@, 40));
    lemma_be32_at(b, 24, next.0);
    lemma_be32_at(b, 28, 0);
    lemma_be32_at(b, 88, head);
}

/// A journal is upgraded where the filesystem has checksums and it has none, nor any
/// other feature, and is clean. It then has checksums of the third version and wide
/// block numbers if the filesystem has them; and nothing else changes but the flag
/// of the first version, which goes.
pub proof fn upgrades_are_local(
    raw: RawJournalSuperblock,
    needs: JournalUpgradeNeeds,
    r: Option<RawJournalSuperblock>,
    reads: bool,
    i: int,
)
    requires
        call_ensures(upgrade_journal_on_mount, (&raw, needs), r),
        call_ensures(upgrade_reads_superblock, (needs,), reads),
        0 <= i < 1024,
    ensures
        r is Some <==> needs.fs_has_metadata_csum && be32_at(raw.bytes@, 4) == 4 && be32_at(
            raw.bytes@,
            40,
        ) == 0 && be32_at(raw.bytes@, 28) == 0,
        reads <==> needs.fs_has_metadata_csum,
        r matches Some(new) ==> {
            &&& be32_at(new.bytes@, 40) == if needs.fs_is_64bit {
                0x12u32
            } else {
                0x10u32
            }
            &&& be32_at(new.bytes@, 36) == be32_at(raw.bytes@, 36) & !1u32
            &&& new.bytes@[80] == 4
            &&& csum_is_right(new.bytes@)
            &&& !(36 <= i < 44) && i != 80 && !(252 <= i < 256) ==> new.bytes@[i] == raw.bytes@[i]
        },
{
    if let Some(new) = r {
        let plain = upgraded(raw.bytes@, needs);
        assert(0x10u32 | 2u32 == 0x12u32 && 0x12u32 & 0x18u32 != 0 && 0x10u32 & 0x18u32 != 0)
            by (bit_vector);
        let features = if needs.fs_is_64bit {
            0x12u32
        } else {
            0x10u32
        };
        lemma_be32_at(plain, 40, features);
        lemma_stamped(plain);
        lemma_be32_at(new.bytes@, 40, features);
        lemma_be32_at(new.bytes@, 36, be32_at(raw.bytes@, 36) & !1u32);
    }
}

/// What the features make of the tags of a descriptor: a tag has eight bytes, four
/// more for wide block numbers and two more for a checksum of the second version, or
/// sixteen with checksums of the third. Checksums leave room at the end of a block.
/// A descriptor has as many tags as fit it behind its header, with one UUID.
pub proof fn tags_fill_their_blocks(
    features: u32,
    r: Result<TagLayout, Error>,
    tags: usize,
    entries: usize,
    csum: bool,
)
    requires
        call_ensures(TagLayout::from_features, (features,), r),
        r matches Ok(layout) ==> call_ensures(TagLayout::tags_per_descriptor, (&layout,), tags),
        r matches Ok(layout) ==> call_ensures(revoke_entries_per_block, (&layout,), entries),
        r matches Ok(layout) ==> call_ensures(TagLayout::has_csum, (&layout,), csum),
    ensures
        r is Err <==> features & 8 != 0 && features & 0x10 != 0,
        r matches Err(e) ==> e == Error::BothCsumV2V3,
        r matches Ok(layout) ==> {
            let tail = if features & 8 != 0 || features & 0x10 != 0 {
                4int
            } else {
                0
            };
            let entry = if features & 2 != 0 {
                8int
            } else {
                4
            };
            &&& layout.has_blocknr_high <==> features & 2 != 0
            &&& layout.csum_v3 <==> features & 0x10 != 0
            &&& layout.descriptor_tail_bytes == tail
            &&& csum <==> tail == 4
            &&& layout.csum_v3 ==> layout.tag_bytes == 16
            &&& !layout.csum_v3 ==> layout.tag_bytes == 8 + (if features & 2 != 0 {
                4int
            } else {
                0
            }) + (if features & 8 != 0 {
                2int
            } else {
                0
            })
            &&& 12 + 16 + tags * layout.tag_bytes + tail <= 4096
            &&& 12 + 16 + tags * layout.tag_bytes + layout.tag_bytes + tail > 4096
            &&& 16 + entries * entry + tail <= 4096
            &&& 16 + entries * entry + entry + tail > 4096
        },
{
    if let Ok(layout) = r {
        let t = layout.tag_bytes as int;
        let room = layout.area_end() - 28;
        assert(tags == room / t);
        assert(tags * t <= room < tags * t + t) by (nonlinear_arith)
            requires
                tags == room / t,
                t > 0,
                room >= 0,
        ;
    }
}

/// Where a tag keeps its parts: the low word of its block number first, the high
/// one, if there is one, behind eight bytes; the flags at the end of the first eight
/// bytes; and the checksum, if there is one, in front of the flags or, in the third
/// version, at the end.
pub proof fn tags_have_their_places(
    layout: TagLayout,
    descriptor: [u8; BLOCK_SIZE],
    offset: usize,
    r: Result<DescriptorTag, Error>,
)
    requires
        layout.wf(),
        offset + layout.tag_bytes + layout.descriptor_tail_bytes <= 4096,
        call_ensures(TagLayout::decode_tag, (&layout, &descriptor, offset), r),
    ensures
        r matches Ok(tag) ==> {
            let b = descriptor@;
            let at = offset as int;
            &&& tag.blocknr == be32_at(b, at) + (if layout.has_blocknr_high {
                be32_at(b, at + 8) * 0x1_0000_0000
            } else {
                0
            })
            &&& layout.csum_v3 ==> tag.flags == be32_at(b, at + 4) && tag.checksum == Some(
                TagChecksum::V3(be32_at(b, at + 12)),
            )
            &&& !layout.csum_v3 ==> tag.flags == be16_at(b, at + 6)
            &&& !layout.csum_v3 && layout.descriptor_tail_bytes == 4 ==> tag.checksum == Some(
                TagChecksum::V2(be16_at(b, at + 4)),
            )
            &&& layout.descriptor_tail_bytes == 0 ==> tag.checksum is None
        },
        r is Err <==> layout.csum_v3 && be32_at(descriptor@, offset + 4) > 0xFFFF,
{
}

/// What the flags of a tag say: the first bit that the block is escaped, the second
/// that no UUID follows, and the fourth that no tag follows.
pub proof fn tag_flags_have_their_bits(
    tag: DescriptorTag,
    escaped: bool,
    last: bool,
    reuses: bool,
)
    requires
        call_ensures(DescriptorTag::is_escaped, (&tag,), escaped),
        call_ensures(DescriptorTag::is_last, (&tag,), last),
        call_ensures(DescriptorTag::reuses_uuid, (&tag,), reuses),
    ensures
        escaped <==> tag.flags & 1 != 0,
        reuses <==> tag.flags & 2 != 0,
        last <==> tag.flags & 8 != 0,
{
}

/// A block of the log begins with the number of the format, its kind and its
/// transaction, and a new one has zeros behind.
pub proof fn headers_have_their_places(
    blocktype: u32,
    tid: Tid,
    block: [u8; BLOCK_SIZE],
    header: RawJournalHeader,
    i: int,
)
    requires
        call_ensures(new_block, (blocktype, tid), block),
        call_ensures(RawJournalHeader::parse, (&block,), header),
        12 <= i < 4096,
    ensures
        be32_at(block@, 0) == 0xC03B_3998,
        be32_at(block@, 4) == blocktype,
        be32_at(block@, 8) == tid.0,
        header.h_magic == 0xC03B_3998,
        header.h_blocktype == blocktype,
        header.h_sequence == tid.0,
        block@[i] == 0,
{
    assert(block@.take(12) =~= header_bytes(blocktype, tid));
    lemma_header_round_trips(block@, blocktype, tid);
}

/// A commit block names its transaction and its time, and has the right checksum
/// where the journal has them.
pub proof fn commit_blocks_have_their_places(
    tid: Tid,
    seed: Option<JournalCsumSeed>,
    now: CommitTime,
    block: [u8; BLOCK_SIZE],
    i: int,
)
    requires
        call_ensures(build_commit_block, (tid, seed, now), block),
        0 <= i < 4096,
    ensures
        be32_at(block@, 0) == 0xC03B_3998,
        be32_at(block@, 4) == 2,
        be32_at(block@, 8) == tid.0,
        be32_at(block@, 48) == now.secs / 0x1_0000_0000,
        be32_at(block@, 52) == now.secs % 0x1_0000_0000,
        be32_at(block@, 56) == now.nanos,
        seed matches Some(seed) ==> be32_at(block@, 16) == crc(seed.0, zeroed(block@, 16, 4)),
        i >= 12 && !(48 <= i < 60) && (seed is None || !(16 <= i < 20)) ==> block@[i] == 0,
{
    reveal(commit_block);
    let b = block@;
    assert(b.take(12) =~= header_bytes(2, tid));
    lemma_header_round_trips(b, 2, tid);
    lemma_be32_at(b, 48, (now.secs / 0x1_0000_0000) as u32);
    lemma_be32_at(b, 52, (now.secs % 0x1_0000_0000) as u32);
    lemma_be32_at(b, 56, now.nanos);
    if let Some(seed) = seed {
        let timed = commit_block(tid, None, now);
        assert(zeroed(b, 16, 4) =~= zeroed(timed, 16, 4));
        lemma_be32_at(b, 16, crc(seed.0, zeroed(timed, 16, 4)));
    }
}

/// The checksums of the log: that of a descriptor or a revoke block is in its last
/// four bytes, that of a commit block behind sixteen bytes; each is over the whole
/// block but itself. That of a logged block is over the transaction and the block.
pub proof fn log_checksums_have_their_places(
    seed: JournalCsumSeed,
    block: [u8; BLOCK_SIZE],
    tid: Tid,
    tail_ok: bool,
    commit_ok: bool,
    data: u32,
    uuid: [u8; 16],
    derived: JournalCsumSeed,
)
    requires
        call_ensures(JournalCsumSeed::verify_block_tail, (&seed, &block), tail_ok),
        call_ensures(JournalCsumSeed::verify_commit_block, (&seed, &block), commit_ok),
        call_ensures(JournalCsumSeed::data_block_csum, (&seed, tid, &block), data),
        call_ensures(JournalCsumSeed::derive, (&uuid,), derived),
    ensures
        tail_ok <==> be32_at(block@, 4092) == crc(seed.0, zeroed(block@, 4092, 4)),
        commit_ok <==> be32_at(block@, 16) == crc(seed.0, zeroed(block@, 16, 4)),
        data == crc(seed.0, be32(tid.0) + block@),
        derived.0 == crc(0xFFFF_FFFF, uuid@),
{
    lemma_crc_chains(seed.0, be32(tid.0), block@);
}

/// A block belongs to the chain of a transaction if it begins with the number of the
/// format and names the transaction and one of the three kinds.
pub proof fn chain_blocks_are_known(
    tid: Tid,
    block: [u8; BLOCK_SIZE],
    r: Result<ChainBlock, Error>,
)
    requires
        call_ensures(check_chain_block, (tid, &block), r),
    ensures
        ({
            let mine = be32_at(block@, 0) == 0xC03B_3998 && be32_at(block@, 8) == tid.0;
            &&& r == Ok::<ChainBlock, Error>(ChainBlock::Descriptor) <==> mine && be32_at(block@, 4)
                == 1
            &&& r == Ok::<ChainBlock, Error>(ChainBlock::Commit) <==> mine && be32_at(block@, 4)
                == 2
            &&& r == Ok::<ChainBlock, Error>(ChainBlock::Revoke) <==> mine && be32_at(block@, 4)
                == 5
            &&& r == Err::<ChainBlock, Error>(Error::ChainBadMagic) <==> be32_at(block@, 0)
                != 0xC03B_3998
            &&& r == Err::<ChainBlock, Error>(Error::ChainBadTid) <==> be32_at(block@, 0)
                == 0xC03B_3998 && be32_at(block@, 8) != tid.0
            &&& r == Err::<ChainBlock, Error>(Error::ChainBadType) <==> mine && be32_at(block@, 4)
                != 1 && be32_at(block@, 4) != 2 && be32_at(block@, 4) != 5
        }),
{
}

/// A block that begins with the number of the format is escaped in the log: its
/// first four bytes are zeros there. The rest of it, and any other block, stands in
/// the log as it is.
pub proof fn escapes_hide_the_format(block: LoggedBlock, logged: [u8; BLOCK_SIZE], i: int)
    requires
        call_ensures(LoggedBlock::to_logged, (&block,), logged),
        0 <= i < 4096,
    ensures
        block.escape && i < 4 ==> logged@[i] == 0,
        !block.escape || i >= 4 ==> logged@[i] == block.bytes@[i],
{
}

/// A revoke block says how many of its bytes are used, and has its block numbers one
/// behind another, in eight bytes each where they are wide and in four where not.
pub proof fn revokes_have_their_places(
    tid: Tid,
    run: &[u64],
    layout: TagLayout,
    seed: Option<JournalCsumSeed>,
    r: Result<[u8; BLOCK_SIZE], Error>,
    i: int,
)
    requires
        layout.wf(),
        0 < run@.len() <= revoke_capacity(layout),
        call_ensures(build_revoke_block, (tid, run, &layout, seed), r),
    ensures
        r is Ok <==> (seed is Some <==> layout.descriptor_tail_bytes != 0) && (
        layout.has_blocknr_high || forall|k: int|
            0 <= k < run@.len() ==> #[trigger] run@[k] <= u32::MAX),
        r matches Ok(block) ==> {
            &&& be32_at(block@, 0) == 0xC03B_3998
            &&& be32_at(block@, 4) == 5
            &&& be32_at(block@, 8) == tid.0
            &&& layout.has_blocknr_high ==> be32_at(block@, 12) == 16 + 8 * run@.len()
            &&& !layout.has_blocknr_high ==> be32_at(block@, 12) == 16 + 4 * run@.len()
            &&& layout.has_blocknr_high && 0 <= i < run@.len() ==> be32_at(block@, 16 + 8 * i)
                == run@[i] / 0x1_0000_0000 && be32_at(block@, 20 + 8 * i) == run@[i]
                % 0x1_0000_0000
            &&& !layout.has_blocknr_high && 0 <= i < run@.len() ==> be32_at(block@, 16 + 4 * i)
                == run@[i]
            &&& seed matches Some(seed) ==> be32_at(block@, 4092) == crc(
                seed.0,
                zeroed(block@, 4092, 4),
            )
        },
{
    if let Ok(block) = r {
        revoke_block_round_trips(layout, seed, tid, run@);
        let b = block@;
        let n = run@.len() as int;
        assert(revoke_block(layout, seed, tid, run@) == b);
        assert(be32_at(b, 12) == 16 + n * revoke_entry_bytes(layout)) by {
            reveal(revoke_block);
            let used = (16 + n * revoke_entry_bytes(layout)) as u32;
            lemma_capacity_bytes(layout, n);
            lemma_be32_at(b, 12, used);
        }
        if 0 <= i < n {
            assert(revoked_entry(layout, b, i) == run@[i]);
        }
    }
}

proof fn lemma_capacity_bytes(layout: TagLayout, n: int)
    requires
        layout.wf(),
        0 < n <= revoke_capacity(layout),
    ensures
        16 + n * revoke_entry_bytes(layout) <= 4096 - layout.descriptor_tail_bytes,
{
    if layout.has_blocknr_high {
        assert(n * 8 <= 4080 - layout.descriptor_tail_bytes);
    } else {
        assert(n * 4 <= 4080 - layout.descriptor_tail_bytes);
    }
}

/// A tag vouches for its block by the whole checksum, or by the lower half of it in
/// the second version; one without a checksum takes every block.
pub proof fn tags_vouch_for_their_blocks(
    tag: DescriptorTag,
    seed: JournalCsumSeed,
    tid: Tid,
    logged: [u8; BLOCK_SIZE],
    ok: bool,
    csum: u32,
)
    requires
        call_ensures(DescriptorTag::verify_data_csum, (&tag, seed, tid, &logged), ok),
        call_ensures(JournalCsumSeed::data_block_csum, (&seed, tid, &logged), csum),
    ensures
        tag.checksum is None ==> ok,
        tag.checksum matches Some(TagChecksum::V3(full)) ==> (ok <==> full == csum),
        tag.checksum matches Some(TagChecksum::V2(low)) ==> (ok <==> low == csum % 0x1_0000),
{
}

/// Tags are written with checksums exactly where the journal has a seed for them.
pub proof fn tag_writers_have_their_seed(
    layout: TagLayout,
    block: [u8; BLOCK_SIZE],
    tid: Tid,
    seed: Option<JournalCsumSeed>,
    r: Result<TagWriter, Error>,
)
    requires
        layout.wf(),
        call_ensures(TagLayout::writer, (&layout, block, tid, seed), r),
    ensures
        r is Ok <==> (seed is Some <==> layout.descriptor_tail_bytes != 0),
        r matches Err(e) ==> e == Error::SeedMismatch,
        r matches Ok(w) ==> w.offset == 12 && w.tid == tid && w.block == block && w.layout
            == layout,
        r matches Ok(w) ==> (seed matches Some(s) ==> w.mode == (if layout.csum_v3 {
            TagCsumMode::V3(s)
        } else {
            TagCsumMode::V2(s)
        })),
        r matches Ok(w) ==> (seed is None ==> w.mode is Plain),
{
}

/// No logged block looks like a block of the log itself: none begins with the number
/// of the format. A block that does not either is logged as it is, and another one
/// differs in its first four bytes only.
pub proof fn logged_blocks_hide_the_format(bytes: Seq<u8>, i: int)
    requires
        bytes.len() == 4096,
        0 <= i < 4096,
    ensures
        logged_form(bytes).len() == 4096,
        be32_at(logged_form(bytes), 0) != 0xC03B_3998,
        be32_at(bytes, 0) != 0xC03B_3998 ==> logged_form(bytes) == bytes,
        i >= 4 ==> logged_form(bytes)[i] == bytes[i],
{
}

/// A tag is put where it fits, with the UUID behind it if it has one, and touches no
/// byte but its own. A wide block number needs a layout for it.
pub proof fn tags_are_put_where_they_fit(
    writer: &mut TagWriter,
    blocknr: u64,
    flags: u16,
    logged: &[u8; BLOCK_SIZE],
    r: Result<(), Error>,
    i: int,
)
    requires
        old(writer).wf(),
        call_ensures(TagWriter::put, (writer, blocknr, flags, logged), r),
        0 <= i < 4096,
    ensures
        ({
            let layout = old(writer).layout;
            let at = old(writer).offset as int;
            let end = at + layout.tag_bytes + if flags & 2 == 0 {
                16int
            } else {
                0
            };
            &&& r == Err::<(), Error>(Error::BlockTooWide) <==> blocknr > u32::MAX
                && !layout.has_blocknr_high
            &&& r is Ok <==> (blocknr <= u32::MAX || layout.has_blocknr_high) && end <= 4096
                - layout.descriptor_tail_bytes
            &&& r is Err ==> *final(writer) == *old(writer) && (r->Err_0 == Error::BlockTooWide
                || r->Err_0 == Error::TagAreaFull)
            &&& r is Ok ==> {
                &&& final(writer).offset == end
                &&& be32_at(final(writer).block@, at) == blocknr % 0x1_0000_0000
                &&& layout.has_blocknr_high ==> be32_at(final(writer).block@, at + 8) == blocknr
                    / 0x1_0000_0000
                &&& i < at || at + layout.tag_bytes <= i ==> final(writer).block@[i] == old(
                    writer,
                ).block@[i]
                &&& final(writer).layout == layout
                &&& final(writer).tid == old(writer).tid
            }
        }),
{
    if r is Ok {
        let layout = old(writer).layout;
        let at = old(writer).offset as int;
        let b = final(writer).block@;
        lemma_be32_at(b, at, (blocknr % 0x1_0000_0000) as u32);
        if layout.has_blocknr_high {
            lemma_be32_at(b, at + 8, (blocknr / 0x1_0000_0000) as u32);
        }
    }
}

/// A stamp is right where the features ask for one, and touches nothing else.
proof fn lemma_stamped(plain: Seq<u8>)
    requires
        plain.len() == 1024,
    ensures
        be32_at(plain, 40) & 0x18 == 0 ==> stamped(plain) == plain,
        be32_at(plain, 40) & 0x18 != 0 ==> csum_is_right(stamped(plain)),
        stamped(plain).len() == 1024,
        forall|i: int| 0 <= i < 252 || 256 <= i < 1024 ==> #[trigger] stamped(plain)[i] == plain[i],
{
    assert(8u32 | 0x10u32 == 0x18u32) by (bit_vector);
    if be32_at(plain, 40) & 0x18 != 0 {
        let after = stamped(plain);
        assert(zeroed(after, 252, 4) =~= zeroed(plain, 252, 4));
        lemma_be32_at(after, 252, crc(0xFFFF_FFFF, zeroed(plain, 252, 4)));
    }
}

} // verus!
