//! The content of an inode in memory, and how it is stored on the disk.

use vstd::prelude::*;

use crate::bytes::{zeros, BLOCK_SIZE};
use crate::error::Error;
use crate::inode::device::{
    decode_device_block, device_words, encode_device_block, stored_device, RAW_BLOCK_PTRS_LEN,
};
use crate::inode::raw::{RawInode, INODE_TAIL_SIZE};
use crate::inode::time::{
    decode_time, encode_time, stored_time, time_round_trips, time_words, Duration, MAX_STORED_SECS,
};

verus! {

/// The most links that an inode may have.
pub const MAX_LINK_COUNT: u16 = 32000;

/// The extra size that an inode of the full size has.
pub const EXTRA_ISIZE: u16 = 32;

/// The kinds of inodes.
#[derive(Clone, Copy, Debug, PartialEq, Eq, Structural)]
pub enum InodeType {
    NamedPipe,
    CharDevice,
    Dir,
    BlockDevice,
    File,
    SymLink,
    Socket,
}

/// The type in the upper four bits of a mode, if there is one.
pub open spec fn type_in_mode(mode: u16) -> Option<InodeType> {
    let kind = mode / 0x1000;
    if kind == 0x1 {
        Some(InodeType::NamedPipe)
    } else if kind == 0x2 {
        Some(InodeType::CharDevice)
    } else if kind == 0x4 {
        Some(InodeType::Dir)
    } else if kind == 0x6 {
        Some(InodeType::BlockDevice)
    } else if kind == 0x8 {
        Some(InodeType::File)
    } else if kind == 0xA {
        Some(InodeType::SymLink)
    } else if kind == 0xC {
        Some(InodeType::Socket)
    } else {
        None
    }
}

impl InodeType {
    /// The type's bits in a mode.
    pub open spec fn mode_bits(self) -> u16 {
        match self {
            InodeType::NamedPipe => 0x1000,
            InodeType::CharDevice => 0x2000,
            InodeType::Dir => 0x4000,
            InodeType::BlockDevice => 0x6000,
            InodeType::File => 0x8000,
            InodeType::SymLink => 0xA000,
            InodeType::Socket => 0xC000,
        }
    }

    /// The type in a mode, if there is one.
    pub fn from_raw_mode(mode: u16) -> (r: Option<Self>)
        ensures
            r == type_in_mode(mode),
    {
        let kind: u16 = mode / 0x1000;
        match kind {
            0x1 => Some(InodeType::NamedPipe),
            0x2 => Some(InodeType::CharDevice),
            0x4 => Some(InodeType::Dir),
            0x6 => Some(InodeType::BlockDevice),
            0x8 => Some(InodeType::File),
            0xA => Some(InodeType::SymLink),
            0xC => Some(InodeType::Socket),
            _ => None,
        }
    }

    /// The type's bits in a mode.
    pub fn bits(self) -> (bits: u16)
        ensures
            bits == self.mode_bits(),
    {
        match self {
            InodeType::NamedPipe => 0x1000,
            InodeType::CharDevice => 0x2000,
            InodeType::Dir => 0x4000,
            InodeType::BlockDevice => 0x6000,
            InodeType::File => 0x8000,
            InodeType::SymLink => 0xA000,
            InodeType::Socket => 0xC000,
        }
    }
}

/// Permissions: the lower twelve bits of a mode.
#[derive(Clone, Copy, Debug, PartialEq, Eq, Structural)]
pub struct FilePerm(pub u16);

impl FilePerm {
    /// Twelve bits.
    pub open spec fn wf(self) -> bool {
        self.0 < 0x1000
    }

    /// The permissions in a mode.
    pub fn from_bits_truncate(bits: u16) -> (perm: Self)
        ensures
            perm.wf(),
            perm.0 == bits % 0x1000,
    {
        FilePerm(bits % 0x1000)
    }

    /// The bits.
    pub fn bits(&self) -> (bits: u16)
        ensures
            bits == self.0,
    {
        self.0
    }
}

/// The flags that are known.
pub const KNOWN_FLAGS: u32 = 0x102C_10FF;

/// The flag of a directory with a hash index.
pub const FLAG_INDEX: u32 = 0x1000;

/// The flag of an inode whose block area holds an extent tree.
pub const FLAG_EXTENTS: u32 = 0x8_0000;

/// The flags of an inode.
#[derive(Clone, Copy, Debug, PartialEq, Eq, Structural)]
pub struct FileFlags(pub u32);

impl FileFlags {
    /// No flag but known ones.
    pub open spec fn wf(self) -> bool {
        self.0 & KNOWN_FLAGS == self.0
    }

    /// The known ones of some flags.
    pub fn from_bits_truncate(bits: u32) -> (flags: Self)
        ensures
            flags.0 == bits & KNOWN_FLAGS,
            flags.wf(),
    {
        assert(bits & 0x102C_10FFu32 & 0x102C_10FFu32 == bits & 0x102C_10FFu32) by (bit_vector);
        FileFlags(bits & KNOWN_FLAGS)
    }

    /// The bits.
    pub fn bits(&self) -> (bits: u32)
        ensures
            bits == self.0,
    {
        self.0
    }

    /// Whether all of `flags` are set.
    pub fn contains(&self, flags: FileFlags) -> (r: bool)
        ensures
            r == (self.0 & flags.0 == flags.0),
    {
        self.0 & flags.0 == flags.0
    }
}

/// What the deletion time of an inode holds: a time, or the next inode of the
/// orphan list while the inode is on it.
#[derive(Clone, Copy, Debug, PartialEq, Eq, Structural)]
pub enum Dtime {
    /// When the inode was deleted. Zero is for one that lives.
    Time(Duration),
    /// The next orphan, if there is one.
    OrphanNext(Option<u32>),
}

impl Dtime {
    /// How it is stored. A time past the range is stored as the last of it,
    /// and not as zero, which would mean that the inode lives.
    pub open spec fn raw(self) -> u32 {
        match self {
            Dtime::Time(time) => if time.secs > u32::MAX {
                u32::MAX
            } else {
                time.secs as u32
            },
            Dtime::OrphanNext(Some(ino)) => ino,
            Dtime::OrphanNext(None) => 0,
        }
    }

    /// How it is stored.
    pub fn to_raw(self) -> (raw: u32)
        ensures
            raw == self.raw(),
    {
        match self {
            Dtime::Time(time) => if time.secs > u32::MAX as u64 {
                u32::MAX
            } else {
                time.secs as u32
            },
            Dtime::OrphanNext(next) => match next {
                Some(ino) => ino,
                None => 0,
            },
        }
    }
}

/// What the block area of a new inode holds.
#[derive(Clone, Copy, Debug, PartialEq, Eq, Structural)]
pub enum InodeSeed {
    /// An empty extent tree.
    ExtentRoot,
    /// A device id.
    Device(u64),
    /// Nothing.
    Nothing,
}

/// First word of an empty extent tree: its magic, and no entries.
pub const EMPTY_ROOT_WORD_0: u32 = 0xF30A;

/// Second word of an empty extent tree: room for four entries, and no depth.
pub const EMPTY_ROOT_WORD_1: u32 = 4;

/// The words of an empty extent tree.
pub open spec fn empty_root_words() -> Seq<u32> {
    Seq::new(
        RAW_BLOCK_PTRS_LEN as nat,
        |i: int|
            if i == 0 {
                EMPTY_ROOT_WORD_0
            } else if i == 1 {
                EMPTY_ROOT_WORD_1
            } else {
                0
            },
    )
}

/// The block area of an empty extent tree.
pub fn empty_extent_root() -> (root: [u32; RAW_BLOCK_PTRS_LEN])
    ensures
        root@ == empty_root_words(),
{
    let mut root = [0u32; RAW_BLOCK_PTRS_LEN];
    root[0] = EMPTY_ROOT_WORD_0;
    root[1] = EMPTY_ROOT_WORD_1;
    assert(root@ =~= empty_root_words());
    root
}

/// The content of an inode.
#[derive(Clone, Copy, Debug)]
pub struct InodeDesc {
    pub type_: InodeType,
    pub perm: FilePerm,
    pub uid: u32,
    pub gid: u32,
    pub size: u64,
    pub atime: Duration,
    pub ctime: Duration,
    pub mtime: Duration,
    pub crtime: Duration,
    pub dtime: Dtime,
    pub link_count: u16,
    /// Sectors of 512 bytes.
    pub sector_count: u64,
    pub flags: FileFlags,
    pub file_acl: u64,
    pub generation: u32,
    /// The block area.
    pub block: [u32; RAW_BLOCK_PTRS_LEN],
}

/// The device that the inode of a device stands for.
pub open spec fn device_of(desc: InodeDesc) -> Option<u64> {
    if desc.type_ == InodeType::CharDevice || desc.type_ == InodeType::BlockDevice {
        Some(stored_device(desc.block@))
    } else {
        None
    }
}

/// Whether the content of an inode is extents.
pub open spec fn extent_based(flags: FileFlags) -> bool {
    flags.0 & FLAG_EXTENTS == FLAG_EXTENTS
}

/// The size that an inode stores. Only a file has the upper half.
pub open spec fn stored_size(raw: RawInode) -> u64 {
    if type_in_mode(raw.mode) == Some(InodeType::File) {
        (raw.size_lo + raw.size_high * 0x1_0000_0000) as u64
    } else {
        raw.size_lo as u64
    }
}

/// The first thing that is wrong with an inode.
pub open spec fn inode_fault(raw: RawInode) -> Option<Error> {
    if raw.link_count == 0 {
        Some(Error::InodeNotInUse)
    } else if type_in_mode(raw.mode) is None {
        Some(Error::InvalidMode)
    } else if type_in_mode(raw.mode) == Some(InodeType::SymLink) && stored_size(raw)
        >= BLOCK_SIZE {
        Some(Error::SymlinkTooLarge)
    } else if stored_size(raw) > i64::MAX {
        Some(Error::InodeTooLarge)
    } else {
        None
    }
}

/// The content of an inode without a fault.
pub open spec fn inode_content(raw: RawInode) -> InodeDesc {
    InodeDesc {
        type_: type_in_mode(raw.mode)->0,
        perm: FilePerm((raw.mode % 0x1000) as u16),
        uid: (raw.uid + raw.uid_high * 0x1_0000) as u32,
        gid: (raw.gid + raw.gid_high * 0x1_0000) as u32,
        size: stored_size(raw),
        atime: stored_time(raw.atime, raw.atime_extra),
        ctime: stored_time(raw.ctime, raw.ctime_extra),
        mtime: stored_time(raw.mtime, raw.mtime_extra),
        crtime: stored_time(raw.crtime, raw.crtime_extra),
        dtime: Dtime::Time(Duration { secs: raw.dtime as u64, nanos: 0 }),
        link_count: raw.link_count,
        sector_count: (raw.sector_count + raw.blocks_high * 0x1_0000_0000) as u64,
        flags: FileFlags(raw.flags & KNOWN_FLAGS),
        file_acl: (raw.file_acl_lo + raw.file_acl_high * 0x1_0000_0000) as u64,
        generation: raw.generation,
        block: raw.block,
    }
}

impl InodeDesc {
    /// The parts are well-formed.
    pub open spec fn wf(self) -> bool {
        &&& self.perm.wf()
        &&& self.flags.wf()
        &&& self.atime.wf()
        &&& self.ctime.wf()
        &&& self.mtime.wf()
        &&& self.crtime.wf()
    }

    /// The content of a new inode: nothing in it, and all its times now.
    pub fn new(
        type_: InodeType,
        perm: FilePerm,
        uid: u32,
        gid: u32,
        link_count: u16,
        generation: u32,
        now: Duration,
        seed: InodeSeed,
    ) -> (desc: Self)
        requires
            perm.wf(),
            now.wf(),
        ensures
            desc.wf(),
            desc.block@ == (match seed {
                InodeSeed::ExtentRoot => empty_root_words(),
                InodeSeed::Device(id) => device_words(id),
                InodeSeed::Nothing => Seq::new(RAW_BLOCK_PTRS_LEN as nat, |i: int| 0u32),
            }),
            desc == (InodeDesc {
                type_,
                perm,
                uid,
                gid,
                size: 0,
                atime: now,
                ctime: now,
                mtime: now,
                crtime: now,
                dtime: Dtime::Time(Duration { secs: 0, nanos: 0 }),
                link_count,
                sector_count: 0,
                flags: FileFlags(
                    if seed == InodeSeed::ExtentRoot {
                        FLAG_EXTENTS
                    } else {
                        0
                    },
                ),
                file_acl: 0,
                generation,
                block: desc.block,
            }),
    {
        assert(0x8_0000u32 & 0x102C_10FFu32 == 0x8_0000u32 && 0u32 & 0x102C_10FFu32 == 0u32)
            by (bit_vector);
        let (flags, block) = match seed {
            InodeSeed::ExtentRoot => (FileFlags(FLAG_EXTENTS), empty_extent_root()),
            InodeSeed::Device(id) => (FileFlags(0), encode_device_block(id)),
            InodeSeed::Nothing => (FileFlags(0), [0u32; RAW_BLOCK_PTRS_LEN]),
        };
        let desc = InodeDesc {
            type_,
            perm,
            uid,
            gid,
            size: 0,
            atime: now,
            ctime: now,
            mtime: now,
            crtime: now,
            dtime: Dtime::Time(Duration::zero()),
            link_count,
            sector_count: 0,
            flags,
            file_acl: 0,
            generation,
            block,
        };
        assert(seed == InodeSeed::Nothing ==> desc.block@ =~= Seq::new(
            RAW_BLOCK_PTRS_LEN as nat,
            |i: int| 0u32,
        ));
        desc
    }

    /// Reads the content of an inode.
    pub fn try_from(raw: &RawInode) -> (r: Result<Self, Error>)
        ensures
            match inode_fault(*raw) {
                Some(e) => r == Err::<Self, Error>(e),
                None => r == Ok::<Self, Error>(inode_content(*raw)),
            },
            r matches Ok(desc) ==> desc.wf(),
    {
        if raw.link_count == 0 {
            return Err(Error::InodeNotInUse);
        }
        let type_ = match InodeType::from_raw_mode(raw.mode) {
            Some(type_) => type_,
            None => {
                return Err(Error::InvalidMode);
            },
        };
        let mut size: u64 = raw.size_lo as u64;
        if type_ == InodeType::File {
            size = size + raw.size_high as u64 * 0x1_0000_0000;
        }
        if type_ == InodeType::SymLink && size >= BLOCK_SIZE as u64 {
            return Err(Error::SymlinkTooLarge);
        }
        if size > i64::MAX as u64 {
            return Err(Error::InodeTooLarge);
        }
        Ok(
            InodeDesc {
                type_,
                perm: FilePerm::from_bits_truncate(raw.mode),
                uid: raw.uid as u32 + raw.uid_high as u32 * 0x1_0000,
                gid: raw.gid as u32 + raw.gid_high as u32 * 0x1_0000,
                size,
                atime: decode_time(raw.atime, raw.atime_extra),
                ctime: decode_time(raw.ctime, raw.ctime_extra),
                mtime: decode_time(raw.mtime, raw.mtime_extra),
                crtime: decode_time(raw.crtime, raw.crtime_extra),
                dtime: Dtime::Time(Duration::new(raw.dtime as u64, 0)),
                link_count: raw.link_count,
                sector_count: raw.sector_count as u64 + raw.blocks_high as u64 * 0x1_0000_0000,
                flags: FileFlags::from_bits_truncate(raw.flags),
                file_acl: raw.file_acl_lo as u64 + raw.file_acl_high as u64 * 0x1_0000_0000,
                generation: raw.generation,
                block: raw.block,
            },
        )
    }

    /// `raw` is how the content is stored, with `root` in the block area. All
    /// that is stored comes from the content in memory, and nothing from what
    /// is on the disk.
    pub open spec fn stored_as(self, root: [u32; RAW_BLOCK_PTRS_LEN], raw: RawInode) -> bool {
        &&& raw.mode == self.type_.mode_bits() + self.perm.0
        &&& raw.uid == self.uid % 0x1_0000
        &&& raw.uid_high == self.uid / 0x1_0000
        &&& raw.gid == self.gid % 0x1_0000
        &&& raw.gid_high == self.gid / 0x1_0000
        &&& raw.size_lo == self.size % 0x1_0000_0000
        &&& raw.size_high == if self.type_ == InodeType::File {
            self.size / 0x1_0000_0000
        } else {
            0
        }
        &&& (raw.atime, raw.atime_extra) == time_words(self.atime)
        &&& (raw.ctime, raw.ctime_extra) == time_words(self.ctime)
        &&& (raw.mtime, raw.mtime_extra) == time_words(self.mtime)
        &&& (raw.crtime, raw.crtime_extra) == time_words(self.crtime)
        &&& raw.dtime == self.dtime.raw()
        &&& raw.link_count == self.link_count
        &&& raw.sector_count == self.sector_count % 0x1_0000_0000
        &&& raw.blocks_high == self.sector_count / 0x1_0000_0000 % 0x1_0000
        &&& raw.flags == self.flags.0
        &&& raw.block == root
        &&& raw.generation == self.generation
        &&& raw.extra_isize == EXTRA_ISIZE
        &&& raw.osd1 == 0
        &&& raw.file_acl_lo == self.file_acl % 0x1_0000_0000
        &&& raw.obso_faddr == 0
        &&& raw.file_acl_high == self.file_acl / 0x1_0000_0000 % 0x1_0000
        &&& raw.checksum_lo == 0
        &&& raw.osd2_reserved == 0
        &&& raw.checksum_hi == 0
        &&& raw.version_hi == 0
        &&& raw.projid == 0
        &&& raw.tail@ == zeros(INODE_TAIL_SIZE as nat)
    }

    /// Stores the content, with `root` in the block area.
    pub fn to_raw_inode(&self, root: &[u32; RAW_BLOCK_PTRS_LEN]) -> (raw: RawInode)
        requires
            self.wf(),
        ensures
            self.stored_as(*root, raw),
    {
        let (mtime, mtime_extra) = encode_time(self.mtime);
        let (ctime, ctime_extra) = encode_time(self.ctime);
        let (atime, atime_extra) = encode_time(self.atime);
        let (crtime, crtime_extra) = encode_time(self.crtime);
        let tail = [0u8; INODE_TAIL_SIZE];
        assert(tail@ =~= zeros(INODE_TAIL_SIZE as nat));
        RawInode {
            mode: self.type_.bits() + self.perm.bits(),
            uid: (self.uid % 0x1_0000) as u16,
            size_lo: (self.size % 0x1_0000_0000) as u32,
            atime,
            ctime,
            mtime,
            dtime: self.dtime.to_raw(),
            gid: (self.gid % 0x1_0000) as u16,
            link_count: self.link_count,
            sector_count: (self.sector_count % 0x1_0000_0000) as u32,
            flags: self.flags.bits(),
            osd1: 0,
            block: *root,
            generation: self.generation,
            file_acl_lo: (self.file_acl % 0x1_0000_0000) as u32,
            size_high: if self.type_ == InodeType::File {
                (self.size / 0x1_0000_0000) as u32
            } else {
                0
            },
            obso_faddr: 0,
            blocks_high: (self.sector_count / 0x1_0000_0000 % 0x1_0000) as u16,
            file_acl_high: (self.file_acl / 0x1_0000_0000 % 0x1_0000) as u16,
            uid_high: (self.uid / 0x1_0000) as u16,
            gid_high: (self.gid / 0x1_0000) as u16,
            checksum_lo: 0,
            osd2_reserved: 0,
            extra_isize: EXTRA_ISIZE,
            checksum_hi: 0,
            ctime_extra,
            mtime_extra,
            atime_extra,
            crtime,
            crtime_extra,
            version_hi: 0,
            projid: 0,
            tail,
        }
    }

    /// The device id, for the inode of a device.
    pub fn device_id(&self) -> (r: Option<u64>)
        ensures
            r == device_of(*self),
    {
        match self.type_ {
            InodeType::CharDevice | InodeType::BlockDevice => Some(
                decode_device_block(&self.block),
            ),
            _ => None,
        }
    }

    /// Whether the content is extents.
    pub fn is_extent_based(&self) -> (r: bool)
        ensures
            r == extent_based(self.flags),
    {
        self.flags.contains(FileFlags(FLAG_EXTENTS))
    }

    /// The type.
    pub fn type_(&self) -> (r: InodeType)
        ensures
            r == self.type_,
    {
        self.type_
    }

    /// The size in bytes.
    pub fn size(&self) -> (r: u64)
        ensures
            r == self.size,
    {
        self.size
    }

    /// The number of links.
    pub fn link_count(&self) -> (r: u16)
        ensures
            r == self.link_count,
    {
        self.link_count
    }

    /// The sectors in use.
    pub fn sector_count(&self) -> (r: u64)
        ensures
            r == self.sector_count,
    {
        self.sector_count
    }

    /// Adds to the number of links.
    pub fn inc_link_count(&mut self, delta: u16)
        requires
            old(self).link_count + delta <= u16::MAX,
        ensures
            *final(self) == (InodeDesc {
                link_count: (old(self).link_count + delta) as u16,
                ..*old(self)
            }),
    {
        self.link_count = self.link_count + delta;
    }

    /// Takes from the number of links, but not below zero.
    pub fn dec_link_count(&mut self, delta: u16)
        ensures
            *final(self) == (InodeDesc {
                link_count: if old(self).link_count >= delta {
                    (old(self).link_count - delta) as u16
                } else {
                    0
                },
                ..*old(self)
            }),
    {
        self.link_count = self.link_count.saturating_sub(delta);
    }

    /// Clears flags.
    pub fn remove_flags(&mut self, flags: FileFlags)
        requires
            old(self).wf(),
        ensures
            final(self).wf(),
            *final(self) == (InodeDesc {
                flags: FileFlags(old(self).flags.0 & !flags.0),
                ..*old(self)
            }),
    {
        let a: u32 = self.flags.0;
        let b: u32 = flags.0;
        assert(a & 0x102C_10FFu32 == a ==> (a & !b) & 0x102C_10FFu32 == a & !b) by (bit_vector);
        self.flags = FileFlags(a & !b);
    }

    /// Sets flags.
    pub fn insert_flags(&mut self, flags: FileFlags)
        requires
            old(self).wf(),
            flags.wf(),
        ensures
            final(self).wf(),
            *final(self) == (InodeDesc {
                flags: FileFlags(old(self).flags.0 | flags.0),
                ..*old(self)
            }),
    {
        let a: u32 = self.flags.0;
        let b: u32 = flags.0;
        assert(a & 0x102C_10FFu32 == a && b & 0x102C_10FFu32 == b ==> (a | b) & 0x102C_10FFu32 == a
            | b) by (bit_vector);
        self.flags = FileFlags(a | b);
    }

    /// Whether the deletion time says that the inode lives.
    pub fn dtime_is_live(&self) -> (r: bool)
        ensures
            r == (self.dtime.raw() == 0),
    {
        self.dtime.to_raw() == 0
    }
}

/// Whether a time survives being stored.
pub open spec fn storable_time(d: Duration) -> bool {
    d.secs <= MAX_STORED_SECS
}

/// Whether the content of an inode survives being stored: it is in use, and its
/// numbers fit their fields.
pub open spec fn storable(desc: InodeDesc) -> bool {
    &&& desc.wf()
    &&& desc.link_count > 0
    &&& match desc.type_ {
        InodeType::File => desc.size <= i64::MAX,
        InodeType::SymLink => desc.size < BLOCK_SIZE,
        _ => desc.size <= u32::MAX,
    }
    &&& storable_time(desc.atime)
    &&& storable_time(desc.ctime)
    &&& storable_time(desc.mtime)
    &&& storable_time(desc.crtime)
    &&& desc.dtime matches Dtime::Time(t) && t.secs <= u32::MAX && t.nanos == 0
    &&& desc.sector_count < 0x1_0000_0000_0000
    &&& desc.file_acl < 0x1_0000_0000_0000
}

/// What is stored of an inode is read back: writing an inode loses nothing.
pub proof fn inode_content_round_trips(
    desc: InodeDesc,
    root: [u32; RAW_BLOCK_PTRS_LEN],
    raw: RawInode,
)
    requires
        storable(desc),
        desc.stored_as(root, raw),
    ensures
        inode_fault(raw) is None,
        inode_content(raw) == (InodeDesc { block: root, ..desc }),
{
    time_round_trips(desc.atime);
    time_round_trips(desc.ctime);
    time_round_trips(desc.mtime);
    time_round_trips(desc.crtime);
    assert(type_in_mode(raw.mode) == Some(desc.type_));
    assert(raw.mode % 0x1000 == desc.perm.0);
    assert(raw.uid + raw.uid_high * 0x1_0000 == desc.uid);
    assert(raw.gid + raw.gid_high * 0x1_0000 == desc.gid);
    assert(raw.sector_count + raw.blocks_high * 0x1_0000_0000 == desc.sector_count);
    assert(raw.file_acl_lo + raw.file_acl_high * 0x1_0000_0000 == desc.file_acl);
    assert(stored_size(raw) == desc.size);
}

} // verus!
