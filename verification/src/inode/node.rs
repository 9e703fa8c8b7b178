//! An inode in memory: its content, what backs its data, and which
//! transactions carry it.

use vstd::prelude::*;

use crate::bytes::le32;
use crate::checksum::crc;
use crate::error::Error;
use crate::inode::desc::{
    device_of, extent_based, inode_content, inode_content_round_trips, inode_fault, storable, Dtime,
    FileFlags, FilePerm, InodeDesc, InodeType,
};
use crate::inode::device::RAW_BLOCK_PTRS_LEN;
use crate::inode::raw::{
    checksummable, stamp_inode_checksum, with_checksum, FsCsumSeed, InodeCsumSeed, RawInode,
};
use crate::inode::symlink::{FastSymlinkTarget, MAX_FAST_SYMLINK_LEN};
use crate::inode::time::Duration;
use crate::journal::tid::Tid;

verus! {

/// Bytes of a page of the page cache.
pub const PAGE_SIZE: u64 = 4096;

/// What happens to the data blocks that an inode frees.
#[derive(Clone, Copy, Debug, PartialEq, Eq, Structural)]
pub enum DataForgetPolicy {
    /// They are forgotten by the journal: it may hold images of them.
    Forget,
    /// Nothing: they are never journaled.
    PlainData,
}

/// What backs the data of an inode.
#[derive(Clone, Copy, Debug)]
pub enum InodePayload {
    /// A page cache over blocks that extents map.
    DataBacked {
        forget: DataForgetPolicy,
        /// Pages that the page cache reaches over.
        npages: u64,
    },
    /// A symlink target in the block area.
    FastSymlink { target: FastSymlinkTarget },
    /// Nothing, as for devices, pipes and sockets.
    NoPayload,
}

/// Pages that `size` bytes need.
pub open spec fn pages_for(size: u64) -> int {
    (size + PAGE_SIZE - 1) / PAGE_SIZE as int
}

/// Pages that `size` bytes need.
pub fn page_count(size: u64) -> (n: u64)
    ensures
        n == pages_for(size),
{
    if size % PAGE_SIZE == 0 {
        size / PAGE_SIZE
    } else {
        size / PAGE_SIZE + 1
    }
}

/// What backs the data of an inode with this content. A symlink that has no
/// extents and fits the block area has its target there.
pub open spec fn payload_of(desc: InodeDesc) -> InodePayload {
    match desc.type_ {
        InodeType::File => InodePayload::DataBacked {
            forget: DataForgetPolicy::PlainData,
            npages: pages_for(desc.size) as u64,
        },
        InodeType::Dir => InodePayload::DataBacked {
            forget: DataForgetPolicy::Forget,
            npages: pages_for(desc.size) as u64,
        },
        InodeType::SymLink => if !extent_based(desc.flags) && desc.size <= MAX_FAST_SYMLINK_LEN {
            InodePayload::FastSymlink { target: FastSymlinkTarget { block_ptrs: desc.block } }
        } else {
            InodePayload::DataBacked {
                forget: DataForgetPolicy::Forget,
                npages: pages_for(desc.size) as u64,
            }
        },
        _ => InodePayload::NoPayload,
    }
}

impl InodePayload {
    /// What backs the data of an inode with this content.
    pub fn new(desc: &InodeDesc) -> (payload: Self)
        ensures
            payload == payload_of(*desc),
    {
        match desc.type_ {
            InodeType::File => InodePayload::DataBacked {
                forget: DataForgetPolicy::PlainData,
                npages: page_count(desc.size),
            },
            InodeType::Dir => InodePayload::DataBacked {
                forget: DataForgetPolicy::Forget,
                npages: page_count(desc.size),
            },
            InodeType::SymLink => if !desc.is_extent_based() && desc.size
                <= MAX_FAST_SYMLINK_LEN as u64 {
                InodePayload::FastSymlink { target: FastSymlinkTarget::new(desc.block) }
            } else {
                InodePayload::DataBacked {
                    forget: DataForgetPolicy::Forget,
                    npages: page_count(desc.size),
                }
            },
            _ => InodePayload::NoPayload,
        }
    }

    /// Whether there is a page cache over blocks.
    pub fn is_data_backed(&self) -> (r: bool)
        ensures
            r == (self is DataBacked),
    {
        matches!(self, InodePayload::DataBacked { .. })
    }
}

/// How much of an inode a sync waits for.
#[derive(Clone, Copy, Debug, PartialEq, Eq, Structural)]
pub enum SyncScope {
    /// All that changed.
    Full,
    /// What is needed to read the data back.
    DataOnly,
}

/// The root of an extent tree and the sectors that it maps.
#[derive(Clone, Copy, Debug)]
pub struct ExtentSnapshot {
    pub root: [u32; RAW_BLOCK_PTRS_LEN],
    pub sector_count: u64,
    /// Whether it changed since it was last written back.
    pub dirty: bool,
}

/// An inode in memory.
#[derive(Clone, Copy, Debug)]
pub struct Inode {
    pub ino: u32,
    pub desc: InodeDesc,
    /// Whether the content changed since it was last written back.
    pub dirty: bool,
    pub payload: InodePayload,
    /// The transaction that captured the inode last. It may be uncommitted
    /// though the inode is clean.
    pub sync_tid: Option<Tid>,
    /// The transaction that captured the last change that reading the data
    /// back needs.
    pub datasync_tid: Option<Tid>,
    /// What seeds the checksums of the inode, if it has them.
    pub csum_seed: Option<InodeCsumSeed>,
}

/// Whether the payload is one for this content.
pub open spec fn payload_fits(desc: InodeDesc, payload: InodePayload) -> bool {
    match desc.type_ {
        InodeType::File => payload matches InodePayload::DataBacked { forget, .. } && forget
            == DataForgetPolicy::PlainData,
        InodeType::Dir => payload matches InodePayload::DataBacked { forget, .. } && forget
            == DataForgetPolicy::Forget,
        InodeType::SymLink => match payload {
            InodePayload::DataBacked { forget, .. } => forget == DataForgetPolicy::Forget,
            InodePayload::FastSymlink { target } => target.block_ptrs == desc.block
                && !extent_based(desc.flags),
            InodePayload::NoPayload => false,
        },
        _ => payload is NoPayload,
    }
}

/// The bytes that a read of `avail` bytes at `offset` gives.
pub open spec fn readable(size: u64, offset: u64, avail: u64) -> u64 {
    if offset >= size {
        0
    } else if avail < size - offset {
        avail
    } else {
        (size - offset) as u64
    }
}

/// The sectors that an inode uses: the extent tree knows them, where there is
/// one.
pub open spec fn sectors_in_use(inode: Inode, extents: ExtentSnapshot) -> u64 {
    if inode.payload is DataBacked {
        extents.sector_count
    } else {
        inode.desc.sector_count
    }
}

/// The largest size that an inode of this type may have.
pub open spec fn size_limit(type_: InodeType, max_file_size: u64) -> u64 {
    match type_ {
        InodeType::File => max_file_size,
        _ => u32::MAX as u64,
    }
}

/// The transaction that a sync waits for.
pub open spec fn waited_for(
    inode: Inode,
    scope: SyncScope,
    was_dirty: bool,
    op_tid: Option<Tid>,
) -> Option<Tid> {
    if was_dirty {
        op_tid
    } else {
        match scope {
            SyncScope::DataOnly => inode.datasync_tid,
            SyncScope::Full => inode.sync_tid,
        }
    }
}

impl Inode {
    /// The content is well-formed, and the payload is one for it.
    pub open spec fn wf(self) -> bool {
        &&& self.desc.wf()
        &&& payload_fits(self.desc, self.payload)
    }

    /// The inode as it is first in memory.
    pub open spec fn fresh(ino: u32, desc: InodeDesc, fs_seed: Option<FsCsumSeed>, inode: Inode)
        -> bool {
        &&& inode.ino == ino
        &&& inode.desc == desc
        &&& !inode.dirty
        &&& inode.payload == payload_of(desc)
        &&& inode.sync_tid is None
        &&& inode.datasync_tid is None
        &&& match fs_seed {
            Some(seed) => inode.csum_seed == Some(
                InodeCsumSeed(
                    crc(crc(seed.0, le32(ino)), le32(desc.generation)),
                ),
            ),
            None => inode.csum_seed is None,
        }
    }

    /// Takes an inode into memory. A filesystem with metadata checksums gives
    /// its seed.
    pub fn new(ino: u32, desc: InodeDesc, fs_seed: Option<FsCsumSeed>) -> (inode: Self)
        requires
            desc.wf(),
        ensures
            inode.wf(),
            Inode::fresh(ino, desc, fs_seed, inode),
    {
        let csum_seed = match fs_seed {
            Some(seed) => Some(seed.derive_inode(ino, desc.generation)),
            None => None,
        };
        Inode {
            ino,
            desc,
            dirty: false,
            payload: InodePayload::new(&desc),
            sync_tid: None,
            datasync_tid: None,
            csum_seed,
        }
    }

    /// Takes a deleted inode into memory, to free it: it has no links, for
    /// which it could not be read otherwise.
    pub fn from_raw_for_recovery(ino: u32, raw: &RawInode, fs_seed: Option<FsCsumSeed>) -> (r:
        Result<Self, Error>)
        ensures
            ({
                let probe = RawInode { link_count: 1, ..*raw };
                match r {
                    Err(e) => inode_fault(probe) == Some(e),
                    Ok(inode) => {
                        &&& inode_fault(probe) is None
                        &&& inode.wf()
                        &&& Inode::fresh(
                            ino,
                            InodeDesc { link_count: 0, ..inode_content(probe) },
                            fs_seed,
                            inode,
                        )
                    },
                }
            }),
    {
        let mut probe = *raw;
        probe.link_count = 1;
        match InodeDesc::try_from(&probe) {
            Err(e) => Err(e),
            Ok(content) => {
                let mut desc = content;
                desc.link_count = 0;
                Ok(Inode::new(ino, desc, fs_seed))
            },
        }
    }

    /// Takes an inode into memory whose shrink was interrupted: it keeps its
    /// links.
    pub fn from_raw_live(ino: u32, raw: &RawInode, fs_seed: Option<FsCsumSeed>) -> (r: Result<
        Self,
        Error,
    >)
        ensures
            match r {
                Err(e) => inode_fault(*raw) == Some(e),
                Ok(inode) => {
                    &&& inode_fault(*raw) is None
                    &&& inode.wf()
                    &&& Inode::fresh(ino, inode_content(*raw), fs_seed, inode)
                },
            },
    {
        match InodeDesc::try_from(raw) {
            Err(e) => Err(e),
            Ok(desc) => Ok(Inode::new(ino, desc, fs_seed)),
        }
    }

    /// The number of the inode.
    pub fn ino(&self) -> (r: u32)
        ensures
            r == self.ino,
    {
        self.ino
    }

    /// What kind of file it is.
    pub fn inode_type(&self) -> (r: InodeType)
        ensures
            r == self.desc.type_,
    {
        self.desc.type_
    }

    /// The size in bytes.
    pub fn size(&self) -> (r: u64)
        ensures
            r == self.desc.size,
    {
        self.desc.size
    }

    /// The permission bits.
    pub fn perm(&self) -> (r: FilePerm)
        ensures
            r == self.desc.perm,
    {
        self.desc.perm
    }

    /// The owner.
    pub fn uid(&self) -> (r: u32)
        ensures
            r == self.desc.uid,
    {
        self.desc.uid
    }

    /// The group.
    pub fn gid(&self) -> (r: u32)
        ensures
            r == self.desc.gid,
    {
        self.desc.gid
    }

    /// The number of links.
    pub fn link_count(&self) -> (r: u16)
        ensures
            r == self.desc.link_count,
    {
        self.desc.link_count
    }

    /// The time of the last access.
    pub fn atime(&self) -> (r: Duration)
        ensures
            r == self.desc.atime,
    {
        self.desc.atime
    }

    /// The time of the last modification.
    pub fn mtime(&self) -> (r: Duration)
        ensures
            r == self.desc.mtime,
    {
        self.desc.mtime
    }

    /// The time of the last change.
    pub fn ctime(&self) -> (r: Duration)
        ensures
            r == self.desc.ctime,
    {
        self.desc.ctime
    }

    /// The time of the creation.
    pub fn crtime(&self) -> (r: Duration)
        ensures
            r == self.desc.crtime,
    {
        self.desc.crtime
    }

    /// The device that a device inode stands for.
    pub fn device_id(&self) -> (r: Option<u64>)
        ensures
            r == device_of(self.desc),
    {
        self.desc.device_id()
    }

    /// Notes the transaction that captured the inode.
    pub fn record_sync_tid(&mut self, tid: Option<Tid>)
        ensures
            *final(self) == (Inode {
                sync_tid: if tid is Some {
                    tid
                } else {
                    old(self).sync_tid
                },
                ..*old(self)
            }),
    {
        if tid.is_some() {
            self.sync_tid = tid;
        }
    }

    /// Notes the transaction that captured a change which reading the data
    /// back needs.
    pub fn stamp_datasync_tid(&mut self, tid: Option<Tid>)
        ensures
            *final(self) == (Inode {
                datasync_tid: if tid is Some {
                    tid
                } else {
                    old(self).datasync_tid
                },
                ..*old(self)
            }),
    {
        if tid.is_some() {
            self.datasync_tid = tid;
        }
    }

    /// How many bytes a read of `avail` bytes at `offset` gives.
    pub fn read_at(&self, offset: u64, avail: u64) -> (r: Result<u64, Error>)
        ensures
            r == (if readable(self.desc.size, offset, avail) == 0 {
                Ok(0)
            } else if !(self.payload is DataBacked) {
                Err(Error::NoPageCache)
            } else {
                Ok(readable(self.desc.size, offset, avail))
            }),
    {
        if avail == 0 {
            return Ok(0);
        }
        if offset >= self.desc.size {
            return Ok(0);
        }
        if !self.payload.is_data_backed() {
            return Err(Error::NoPageCache);
        }
        let rest: u64 = self.desc.size - offset;
        if avail < rest {
            Ok(avail)
        } else {
            Ok(rest)
        }
    }

    /// Refuses a size above the largest that the inode may have.
    pub fn ensure_size_within_limit(&self, new_size: u64, max_file_size: u64) -> (r: Result<
        (),
        Error,
    >)
        ensures
            r == (if new_size > size_limit(self.desc.type_, max_file_size) {
                Err::<(), Error>(Error::SizeLimit)
            } else {
                Ok(())
            }),
    {
        let max: u64 = match self.desc.type_ {
            InodeType::File => max_file_size,
            _ => u32::MAX as u64,
        };
        if new_size > max {
            Err(Error::SizeLimit)
        } else {
            Ok(())
        }
    }

    /// Sets the size.
    pub fn set_file_size(&mut self, size: u64)
        ensures
            *final(self) == (Inode {
                desc: InodeDesc { size, ..old(self).desc },
                dirty: true,
                ..*old(self)
            }),
    {
        self.desc.size = size;
        self.dirty = true;
    }

    /// Sets the times of the last modification and of the last change.
    pub fn set_mtime_ctime(&mut self, now: Duration)
        ensures
            *final(self) == (Inode {
                desc: InodeDesc { mtime: now, ctime: now, ..old(self).desc },
                dirty: true,
                ..*old(self)
            }),
    {
        self.desc.mtime = now;
        self.desc.ctime = now;
        self.dirty = true;
    }

    /// Sets the time of the deletion.
    pub fn set_dtime(&mut self, time: Duration)
        ensures
            *final(self) == (Inode {
                desc: InodeDesc { dtime: Dtime::Time(time), ..old(self).desc },
                dirty: true,
                ..*old(self)
            }),
    {
        self.desc.dtime = Dtime::Time(time);
        self.dirty = true;
    }

    /// Notes the next inode of the orphan list, onto which the inode was put.
    pub fn set_orphan_next(&mut self, next: Option<u32>)
        ensures
            *final(self) == (Inode {
                desc: InodeDesc { dtime: Dtime::OrphanNext(next), ..old(self).desc },
                dirty: true,
                ..*old(self)
            }),
    {
        self.desc.dtime = Dtime::OrphanNext(next);
        self.dirty = true;
    }

    /// Changes the permission bits.
    pub fn set_mode(&mut self, mode: u16, now: Duration)
        ensures
            *final(self) == (Inode {
                desc: InodeDesc {
                    perm: FilePerm((mode % 0x1000) as u16),
                    ctime: now,
                    ..old(self).desc
                },
                dirty: true,
                ..*old(self)
            }),
    {
        self.desc.perm = FilePerm::from_bits_truncate(mode);
        self.desc.ctime = now;
        self.dirty = true;
    }

    /// Changes the owner.
    pub fn set_owner(&mut self, uid: u32, now: Duration)
        ensures
            *final(self) == (Inode {
                desc: InodeDesc { uid, ctime: now, ..old(self).desc },
                dirty: true,
                ..*old(self)
            }),
    {
        self.desc.uid = uid;
        self.desc.ctime = now;
        self.dirty = true;
    }

    /// Changes the group.
    pub fn set_group(&mut self, gid: u32, now: Duration)
        ensures
            *final(self) == (Inode {
                desc: InodeDesc { gid, ctime: now, ..old(self).desc },
                dirty: true,
                ..*old(self)
            }),
    {
        self.desc.gid = gid;
        self.desc.ctime = now;
        self.dirty = true;
    }

    /// Sets the time of the last access.
    pub fn set_atime(&mut self, time: Duration)
        ensures
            *final(self) == (Inode {
                desc: InodeDesc { atime: time, ..old(self).desc },
                dirty: true,
                ..*old(self)
            }),
    {
        self.desc.atime = time;
        self.dirty = true;
    }

    /// Sets the time of the last modification.
    pub fn set_mtime(&mut self, time: Duration)
        ensures
            *final(self) == (Inode {
                desc: InodeDesc { mtime: time, ..old(self).desc },
                dirty: true,
                ..*old(self)
            }),
    {
        self.desc.mtime = time;
        self.dirty = true;
    }

    /// Sets the time of the last change.
    pub fn set_ctime(&mut self, time: Duration)
        ensures
            *final(self) == (Inode {
                desc: InodeDesc { ctime: time, ..old(self).desc },
                dirty: true,
                ..*old(self)
            }),
    {
        self.desc.ctime = time;
        self.dirty = true;
    }

    /// Changes the number of links.
    pub fn set_link_count(&mut self, count: u16)
        ensures
            *final(self) == (Inode {
                desc: InodeDesc { link_count: count, ..old(self).desc },
                dirty: true,
                ..*old(self)
            }),
    {
        self.desc.link_count = count;
        self.dirty = true;
    }

    /// The sectors in use: the extent tree knows them, where there is one.
    pub fn sector_count(&self, extents: &ExtentSnapshot) -> (n: u64)
        ensures
            n == sectors_in_use(*self, *extents),
    {
        if self.payload.is_data_backed() {
            extents.sector_count
        } else {
            self.desc.sector_count
        }
    }

    /// Whether the inode has changes that were not written back.
    pub open spec fn unwritten(self, extents: ExtentSnapshot) -> bool {
        self.dirty || (self.payload is DataBacked && extents.dirty)
    }

    /// Whether the inode has changes that were not written back.
    pub fn is_dirty(&self, extents: &ExtentSnapshot) -> (r: bool)
        ensures
            r == self.unwritten(*extents),
    {
        self.dirty || (self.payload.is_data_backed() && extents.dirty)
    }

    /// The content with the sectors that are really in use.
    pub open spec fn settled(self, extents: ExtentSnapshot) -> InodeDesc {
        if self.payload is DataBacked {
            InodeDesc { sector_count: extents.sector_count, ..self.desc }
        } else {
            self.desc
        }
    }

    /// The block area that is written back.
    pub open spec fn stored_root(self, extents: ExtentSnapshot) -> [u32; RAW_BLOCK_PTRS_LEN] {
        if self.payload is DataBacked {
            extents.root
        } else {
            self.desc.block
        }
    }

    /// `raw` is what is written back of the inode, over `slot` if there is one.
    /// While the inode is on the orphan list, its deletion time holds the next
    /// inode of that list.
    pub open spec fn written_as(
        self,
        extents: ExtentSnapshot,
        slot: Option<RawInode>,
        listed: Option<Option<u32>>,
        inode_size: usize,
        raw: RawInode,
    ) -> bool {
        exists|plain: RawInode| #[trigger]
            self.settled(extents).stored_as(self.stored_root(extents), plain) && raw
                == seal_inode(over_slot(plain, slot), listed, self.csum_seed, inode_size)
    }

    /// The inode after a write back, in the transaction `tid` if there is a
    /// journal: it has no changes left, and a full sync waits for that
    /// transaction. Where nothing has changed, it stays as it is.
    pub open spec fn written_back(self, extents: ExtentSnapshot, tid: Option<Tid>) -> Inode {
        if self.unwritten(extents) {
            Inode {
                desc: self.settled(extents),
                dirty: false,
                sync_tid: if tid is Some {
                    tid
                } else {
                    self.sync_tid
                },
                ..self
            }
        } else {
            self
        }
    }

    /// Writes the inode back, in the transaction `tid` if there is a journal:
    /// gives the inode that is to be written, or nothing if nothing changed, and
    /// notes the write back. If the inode then cannot be written, the caller goes
    /// back to the inode from before.
    ///
    /// Without a journal, `slot` has the inode on the disk,
    /// and what the content does not say is kept from it. With a journal, the
    /// disk may be behind, and nothing is taken from it. `listed` has the next
    /// orphan, if the inode is on the orphan list.
    pub fn write_back(
        &mut self,
        extents: &ExtentSnapshot,
        slot: Option<RawInode>,
        listed: Option<Option<u32>>,
        inode_size: usize,
        tid: Option<Tid>,
    ) -> (r: Option<RawInode>)
        requires
            old(self).wf(),
            old(self).csum_seed is Some ==> checksummable(inode_size),
        ensures
            final(self).wf(),
            r is Some <==> old(self).unwritten(*extents),
            r matches Some(raw) ==> old(self).written_as(*extents, slot, listed, inode_size, raw),
            *final(self) == old(self).written_back(*extents, tid),
    {
        if !self.is_dirty(extents) {
            return None;
        }
        let root = if self.payload.is_data_backed() {
            extents.root
        } else {
            self.desc.block
        };
        self.clear_dirty(extents, tid);
        let plain = self.desc.to_raw_inode(&root);
        let mut raw = plain;
        match slot {
            Some(slot) => {
                raw.osd1 = slot.osd1;
                raw.obso_faddr = slot.obso_faddr;
                raw.checksum_lo = slot.checksum_lo;
                raw.osd2_reserved = slot.osd2_reserved;
                raw.extra_isize = slot.extra_isize;
                raw.checksum_hi = slot.checksum_hi;
                raw.version_hi = slot.version_hi;
                raw.projid = slot.projid;
                raw.tail = slot.tail;
            },
            None => {},
        }
        assert(raw == over_slot(plain, slot));
        match listed {
            Some(next) => {
                raw.dtime = Dtime::OrphanNext(next).to_raw();
            },
            None => {},
        }
        match self.csum_seed {
            Some(seed) => {
                stamp_inode_checksum(&mut raw, seed, inode_size);
            },
            None => {},
        }
        assert(old(self).settled(*extents).stored_as(old(self).stored_root(*extents), plain));
        Some(raw)
    }

    /// Notes that the inode was written back, in the transaction `tid` if there
    /// is a journal. Where nothing has changed, there was nothing to write.
    pub fn clear_dirty(&mut self, extents: &ExtentSnapshot, tid: Option<Tid>)
        ensures
            *final(self) == old(self).written_back(*extents, tid),
    {
        if !self.is_dirty(extents) {
            return;
        }
        if self.payload.is_data_backed() {
            self.desc.sector_count = extents.sector_count;
        }
        self.record_sync_tid(tid);
        self.dirty = false;
    }

    /// Notes how far the page cache reaches after it was resized.
    pub fn set_npages(&mut self, new_size: u64)
        ensures
            *final(self) == (Inode {
                payload: match old(self).payload {
                    InodePayload::DataBacked { forget, .. } => InodePayload::DataBacked {
                        forget,
                        npages: pages_for(new_size) as u64,
                    },
                    other => other,
                },
                ..*old(self)
            }),
    {
        let n: u64 = page_count(new_size);
        match self.payload {
            InodePayload::DataBacked { forget, .. } => {
                self.payload = InodePayload::DataBacked { forget, npages: n };
            },
            _ => {},
        }
    }

    /// Clears flags.
    pub fn remove_flags(&mut self, flags: FileFlags)
        requires
            old(self).wf(),
        ensures
            final(self).wf(),
            *final(self) == (Inode {
                desc: InodeDesc {
                    flags: FileFlags(old(self).desc.flags.0 & !flags.0),
                    ..old(self).desc
                },
                dirty: true,
                ..*old(self)
            }),
    {
        self.desc.remove_flags(flags);
        self.dirty = true;
        proof {
            let a = old(self).desc.flags.0;
            let b = flags.0;
            assert(a & 0x8_0000u32 != 0x8_0000u32 ==> (a & !b) & 0x8_0000u32 != 0x8_0000u32)
                by (bit_vector);
        }
    }

    /// Adds to the number of links.
    pub fn inc_link_count(&mut self, delta: u16)
        requires
            old(self).desc.link_count + delta <= u16::MAX,
        ensures
            *final(self) == (Inode {
                desc: InodeDesc {
                    link_count: (old(self).desc.link_count + delta) as u16,
                    ..old(self).desc
                },
                dirty: true,
                ..*old(self)
            }),
    {
        self.desc.inc_link_count(delta);
        self.dirty = true;
    }

    /// Takes from the number of links, but not below zero.
    pub fn dec_link_count(&mut self, delta: u16)
        ensures
            *final(self) == (Inode {
                desc: InodeDesc {
                    link_count: if old(self).desc.link_count >= delta {
                        (old(self).desc.link_count - delta) as u16
                    } else {
                        0
                    },
                    ..old(self).desc
                },
                dirty: true,
                ..*old(self)
            }),
    {
        self.desc.dec_link_count(delta);
        self.dirty = true;
    }
}

/// An inode that is written over another one: what the content of an inode does
/// not say is kept.
pub open spec fn over_slot(plain: RawInode, slot: Option<RawInode>) -> RawInode {
    match slot {
        Some(slot) => RawInode {
            osd1: slot.osd1,
            obso_faddr: slot.obso_faddr,
            checksum_lo: slot.checksum_lo,
            osd2_reserved: slot.osd2_reserved,
            extra_isize: slot.extra_isize,
            checksum_hi: slot.checksum_hi,
            version_hi: slot.version_hi,
            projid: slot.projid,
            tail: slot.tail,
            ..plain
        },
        None => plain,
    }
}

/// An inode as it is written: with the next orphan in its deletion time while
/// it is on the orphan list, and with its checksum if it has one.
pub open spec fn seal_inode(
    plain: RawInode,
    listed: Option<Option<u32>>,
    seed: Option<InodeCsumSeed>,
    inode_size: usize,
) -> RawInode {
    let linked = match listed {
        Some(next) => RawInode { dtime: Dtime::OrphanNext(next).raw(), ..plain },
        None => plain,
    };
    match seed {
        Some(seed) => with_checksum(linked, seed, inode_size),
        None => linked,
    }
}

/// What is written back of an inode that lives and is not on the orphan list
/// says that it lives; while it is on the list, it names the next orphan.
pub proof fn write_back_keeps_the_deletion_time(
    inode: Inode,
    extents: ExtentSnapshot,
    slot: Option<RawInode>,
    listed: Option<Option<u32>>,
    inode_size: usize,
    raw: RawInode,
)
    requires
        inode.wf(),
        inode.written_as(extents, slot, listed, inode_size, raw),
    ensures
        raw.dtime == match listed {
            Some(next) => Dtime::OrphanNext(next).raw(),
            None => inode.desc.dtime.raw(),
        },
{
}

/// An inode that was written back is read back as it was, and with the same
/// payload, once it is off the orphan list. What is not stored is told apart by
/// [`storable`].
pub proof fn written_inode_is_read_back(
    inode: Inode,
    extents: ExtentSnapshot,
    slot: Option<RawInode>,
    inode_size: usize,
    raw: RawInode,
)
    requires
        inode.wf(),
        storable(inode.settled(extents)),
        inode.written_as(extents, slot, None, inode_size, raw),
    ensures
        inode_fault(raw) is None,
        inode_content(raw) == (InodeDesc {
            block: inode.stored_root(extents),
            ..inode.settled(extents)
        }),
        inode.payload is FastSymlink && inode.desc.size <= MAX_FAST_SYMLINK_LEN ==> payload_of(
            inode_content(raw),
        ) == inode.payload,
{
    let plain = choose|plain: RawInode| #[trigger]
        inode.settled(extents).stored_as(inode.stored_root(extents), plain) && raw == seal_inode(
            over_slot(plain, slot),
            None,
            inode.csum_seed,
            inode_size,
        );
    inode_content_round_trips(inode.settled(extents), inode.stored_root(extents), plain);
    assert(inode_content(raw) == inode_content(plain));
}

/// A write back over an inode on the disk keeps what the content does not say;
/// the checksum too, if the inode has none.
pub proof fn write_back_keeps_the_rest(
    inode: Inode,
    extents: ExtentSnapshot,
    slot: RawInode,
    listed: Option<Option<u32>>,
    inode_size: usize,
    raw: RawInode,
)
    requires
        inode.wf(),
        inode.written_as(extents, Some(slot), listed, inode_size, raw),
    ensures
        raw.osd1 == slot.osd1,
        raw.obso_faddr == slot.obso_faddr,
        raw.osd2_reserved == slot.osd2_reserved,
        raw.extra_isize == slot.extra_isize,
        raw.version_hi == slot.version_hi,
        raw.projid == slot.projid,
        raw.tail == slot.tail,
        inode.csum_seed is None ==> raw.checksum_lo == slot.checksum_lo && raw.checksum_hi
            == slot.checksum_hi,
{
}

} // verus!
