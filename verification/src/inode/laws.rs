//! What holds of every inode, told by what callers see of it: how reads end,
//! which space it takes, what a sync waits for, and what a change leaves alone.

use vstd::prelude::*;

use crate::bytes::le32;
use crate::checksum::{crc, lemma_crc_chains};
use crate::error::Error;
use crate::inode::desc::{FileFlags, InodeDesc, InodeType};
use crate::inode::node::{
    page_count, payload_of, DataForgetPolicy, ExtentSnapshot, Inode, InodePayload,
};
use crate::inode::raw::{FsCsumSeed, InodeCsumSeed, RawInode};
use crate::journal::tid::Tid;

verus! {

/// A read gives no more than was asked for, and nothing behind the end of the
/// file. Of an inode whose data is in blocks it gives all that was asked for, or
/// ends where the file ends.
pub proof fn reads_end_with_the_file(inode: Inode, offset: u64, avail: u64, r: Result<u64, Error>)
    requires
        call_ensures(Inode::read_at, (&inode, offset, avail), r),
    ensures
        r matches Ok(n) ==> n <= avail && (n > 0 ==> offset + n <= inode.desc.size),
        inode.payload is DataBacked ==> r is Ok,
        inode.payload is DataBacked && offset <= inode.desc.size ==> r->Ok_0 == avail || offset
            + r->Ok_0 == inode.desc.size,
        r matches Err(e) ==> e == Error::NoPageCache && avail > 0 && offset < inode.desc.size,
        !(inode.payload is DataBacked) ==> (r matches Ok(n) ==> n == 0 && (avail == 0 || offset
            >= inode.desc.size)),
{
}

/// The sectors of an inode whose data is in blocks are those that its extents
/// map, whatever its size; and a write back stores as many. Of another inode they
/// are what its content says.
pub proof fn sectors_are_those_mapped(
    inode: Inode,
    extents: ExtentSnapshot,
    size: u64,
    n: u64,
    resized: u64,
)
    requires
        call_ensures(Inode::sector_count, (&inode, &extents), n),
        call_ensures(
            Inode::sector_count,
            (&Inode { desc: InodeDesc { size, ..inode.desc }, ..inode }, &extents),
            resized,
        ),
    ensures
        resized == n,
        inode.payload is DataBacked ==> n == extents.sector_count,
        !(inode.payload is DataBacked) ==> n == inode.desc.sector_count,
{
}

/// A write back stores the sectors that the inode reports, and what a later look
/// at the content says of them is the same. The block area that is stored is the
/// root of the extents, where there are any.
pub proof fn write_back_stores_the_sectors(
    inode: &mut Inode,
    extents: ExtentSnapshot,
    slot: Option<RawInode>,
    listed: Option<Option<u32>>,
    inode_size: usize,
    tid: Option<Tid>,
    raw: RawInode,
    n: u64,
)
    requires
        old(inode).wf(),
        call_ensures(
            Inode::write_back,
            (inode, &extents, slot, listed, inode_size, tid),
            Some(raw),
        ),
        call_ensures(Inode::sector_count, (&*old(inode), &extents), n),
        n < 0x1_0000_0000_0000,
    ensures
        raw.sector_count + raw.blocks_high * 0x1_0000_0000 == n,
        final(inode).desc.sector_count == n,
        !final(inode).dirty,
        raw.block == if old(inode).payload is DataBacked {
            extents.root
        } else {
            old(inode).desc.block
        },
        raw.link_count == old(inode).desc.link_count,
        raw.flags == old(inode).desc.flags.0,
        raw.generation == old(inode).desc.generation,
        raw.uid + raw.uid_high * 0x1_0000 == old(inode).desc.uid,
        raw.gid + raw.gid_high * 0x1_0000 == old(inode).desc.gid,
        raw.size_lo == old(inode).desc.size % 0x1_0000_0000,
        old(inode).desc.type_ == InodeType::File ==> raw.size_high == old(inode).desc.size
            / 0x1_0000_0000,
{
}

/// A write back leaves the content as it was, but for the number of sectors, and
/// nothing to write. With a journal a full sync then waits for its transaction;
/// what a data sync waits for stays.
pub proof fn write_back_keeps_the_inode(
    inode: &mut Inode,
    extents: ExtentSnapshot,
    tid: Option<Tid>,
)
    requires
        call_ensures(Inode::clear_dirty, (inode, &extents, tid), ()),
    ensures
        final(inode).ino == old(inode).ino,
        final(inode).payload == old(inode).payload,
        final(inode).csum_seed == old(inode).csum_seed,
        final(inode).datasync_tid == old(inode).datasync_tid,
        final(inode).desc == (InodeDesc {
            sector_count: final(inode).desc.sector_count,
            ..old(inode).desc
        }),
        !final(inode).dirty,
        old(inode).dirty && tid is Some ==> final(inode).sync_tid == tid,
        old(inode).payload is DataBacked && extents.dirty && tid is Some ==> final(inode).sync_tid
            == tid,
        tid is None ==> final(inode).sync_tid == old(inode).sync_tid,
        !old(inode).dirty && !(old(inode).payload is DataBacked && extents.dirty) ==> *final(inode)
            == *old(inode),
        final(inode).desc.sector_count != old(inode).desc.sector_count ==> old(
            inode,
        ).payload is DataBacked && final(inode).desc.sector_count == extents.sector_count,
{
}

/// An inode has something to write as soon as its content or, where its data is
/// in blocks, its extents have changed.
pub proof fn changes_are_to_be_written(inode: Inode, extents: ExtentSnapshot, r: bool)
    requires
        call_ensures(Inode::is_dirty, (&inode, &extents), r),
    ensures
        inode.dirty ==> r,
        inode.payload is DataBacked && extents.dirty ==> r,
        r && !inode.dirty ==> inode.payload is DataBacked && extents.dirty,
{
}

/// A number of pages reaches over all the bytes, and no page is behind them.
pub proof fn pages_reach_just_over_the_bytes(size: u64, n: u64)
    requires
        call_ensures(page_count, (size,), n),
    ensures
        size <= n * 4096,
        n * 4096 < size + 4096,
{
}

/// Regular files and directories have their data in blocks; so has a symlink
/// with extents, or with a target of more than 60 bytes. Another symlink has its
/// target in the block area, and anything else has no data. Only the blocks of
/// regular files are never journaled.
pub proof fn kinds_of_files_are_backed(desc: InodeDesc, payload: InodePayload)
    requires
        call_ensures(InodePayload::new, (&desc,), payload),
    ensures
        desc.type_ == InodeType::File || desc.type_ == InodeType::Dir ==> payload is DataBacked,
        desc.type_ == InodeType::SymLink ==> !(payload is NoPayload) && (payload is FastSymlink
            <==> desc.flags.0 & 0x8_0000 != 0x8_0000 && desc.size <= 60),
        desc.type_ != InodeType::File && desc.type_ != InodeType::Dir && desc.type_
            != InodeType::SymLink <==> payload is NoPayload,
        payload matches InodePayload::FastSymlink { target } ==> target.block_ptrs == desc.block,
        payload matches InodePayload::DataBacked { forget, npages } ==> desc.size <= npages * 4096
            < desc.size + 4096 && (forget == DataForgetPolicy::PlainData <==> desc.type_
            == InodeType::File),
        payload == payload_of(desc),
{
}

/// A regular file may grow to the largest size of the filesystem, anything else
/// to what fits 32 bits; what is within the limit is let through.
pub proof fn sizes_have_a_limit(inode: Inode, new_size: u64, max: u64, r: Result<(), Error>)
    requires
        call_ensures(Inode::ensure_size_within_limit, (&inode, new_size, max), r),
    ensures
        inode.desc.type_ == InodeType::File ==> (r is Ok <==> new_size <= max),
        inode.desc.type_ != InodeType::File ==> (r is Ok <==> new_size <= 0xFFFF_FFFF),
        r matches Err(e) ==> e == Error::SizeLimit,
{
}

/// The checksums of an inode depend on its number and its generation: both go
/// into their seed, as eight bytes.
pub proof fn inode_csums_are_seeded(
    ino: u32,
    desc: InodeDesc,
    seed: FsCsumSeed,
    inode: Inode,
    bytes: Seq<u8>,
)
    requires
        desc.wf(),
        call_ensures(Inode::new, (ino, desc, Some(seed)), inode),
        bytes.len() == 8,
        bytes.take(4) == le32(ino),
        bytes.skip(4) == le32(desc.generation),
    ensures
        inode.csum_seed == Some(InodeCsumSeed(crc(seed.0, bytes))),
        bytes[0] == ino % 0x100,
        bytes[3] == ino / 0x100_0000,
        bytes[4] == desc.generation % 0x100,
        bytes[7] == desc.generation / 0x100_0000,
{
    lemma_crc_chains(seed.0, le32(ino), le32(desc.generation));
    assert(bytes =~= le32(ino) + le32(desc.generation));
    assert(bytes[0] == bytes.take(4)[0] && bytes[3] == bytes.take(4)[3]);
    assert(bytes[4] == bytes.skip(4)[0] && bytes[7] == bytes.skip(4)[3]);
}

/// A new inode in memory has nothing to write, no transaction carries it, and its
/// content is the one that was given.
pub proof fn new_inodes_are_clean(
    ino: u32,
    desc: InodeDesc,
    seed: Option<FsCsumSeed>,
    inode: Inode,
)
    requires
        desc.wf(),
        call_ensures(Inode::new, (ino, desc, seed), inode),
    ensures
        inode.ino == ino,
        inode.desc == desc,
        !inode.dirty,
        inode.sync_tid is None,
        inode.datasync_tid is None,
        inode.csum_seed is Some <==> seed is Some,
        inode.payload is DataBacked && desc.type_ == InodeType::File ==> desc.size
            <= inode.payload->npages * 4096 < desc.size + 4096,
{
}

/// An inode whose shrink was interrupted is taken into memory as it is stored; one
/// that was deleted too, but with no links, whatever its field says. Either is
/// refused for its content alone.
pub proof fn orphans_are_taken_in(
    ino: u32,
    raw: RawInode,
    seed: Option<FsCsumSeed>,
    live: Result<Inode, Error>,
    dead: Result<Inode, Error>,
)
    requires
        call_ensures(Inode::from_raw_live, (ino, &raw, seed), live),
        call_ensures(Inode::from_raw_for_recovery, (ino, &raw, seed), dead),
    ensures
        raw.link_count == 0 <==> live == Err::<Inode, Error>(Error::InodeNotInUse),
        dead != Err::<Inode, Error>(Error::InodeNotInUse),
        raw.link_count > 0 ==> (live is Ok <==> dead is Ok),
        live matches Ok(inode) ==> inode.ino == ino && inode.desc.link_count == raw.link_count
            && !inode.dirty && inode.desc.block == raw.block && inode.csum_seed is Some == (
        seed is Some),
        dead matches Ok(inode) ==> inode.ino == ino && inode.desc.link_count == 0 && !inode.dirty
            && inode.desc.block == raw.block,
        live is Ok && dead is Ok ==> dead->Ok_0.desc == (InodeDesc {
            link_count: 0,
            ..live->Ok_0.desc
        }),
{
}

/// Flags that are cleared are off, and no other flag changes.
pub proof fn flags_are_cleared(inode: &mut Inode, flags: FileFlags)
    requires
        old(inode).wf(),
        call_ensures(Inode::remove_flags, (inode, flags), ()),
    ensures
        final(inode).desc.flags.0 & flags.0 == 0,
        final(inode).desc.flags.0 | flags.0 == old(inode).desc.flags.0 | flags.0,
        final(inode).desc == (InodeDesc { flags: final(inode).desc.flags, ..old(inode).desc }),
        final(inode).dirty,
{
    let a = old(inode).desc.flags.0;
    let b = flags.0;
    assert((a & !b) & b == 0 && (a & !b) | b == a | b) by (bit_vector);
}

/// An inode lives as long as what is stored of its deletion is zero. It is one of
/// extents if it has their flag.
pub proof fn living_inodes_have_no_deletion_time(
    desc: InodeDesc,
    live: bool,
    extents: bool,
    root: [u32; 15],
    raw: RawInode,
)
    requires
        desc.wf(),
        call_ensures(InodeDesc::dtime_is_live, (&desc,), live),
        call_ensures(InodeDesc::is_extent_based, (&desc,), extents),
        call_ensures(InodeDesc::to_raw_inode, (&desc, &root), raw),
    ensures
        live <==> raw.dtime == 0,
        extents <==> desc.flags.0 & 0x8_0000 == 0x8_0000,
        raw.block == root,
        raw.link_count == desc.link_count,
        raw.mode % 0x1000 == desc.perm.0,
{
}

/// A transaction that carries the inode is noted, and none takes back what was
/// noted.
pub proof fn carriers_are_noted(inode: &mut Inode, tid: Option<Tid>)
    requires
        call_ensures(Inode::record_sync_tid, (inode, tid), ()),
    ensures
        tid is Some ==> final(inode).sync_tid == tid,
        tid is None ==> final(inode).sync_tid == old(inode).sync_tid,
        final(inode).datasync_tid == old(inode).datasync_tid,
        final(inode).desc == old(inode).desc,
        final(inode).dirty == old(inode).dirty,
{
}

/// A transaction that carries what reading the data back needs is noted, and
/// none takes back what was noted.
pub proof fn data_carriers_are_noted(inode: &mut Inode, tid: Option<Tid>)
    requires
        call_ensures(Inode::stamp_datasync_tid, (inode, tid), ()),
    ensures
        tid is Some ==> final(inode).datasync_tid == tid,
        tid is None ==> final(inode).datasync_tid == old(inode).datasync_tid,
        final(inode).sync_tid == old(inode).sync_tid,
        final(inode).desc == old(inode).desc,
        final(inode).dirty == old(inode).dirty,
{
}

} // verus!
