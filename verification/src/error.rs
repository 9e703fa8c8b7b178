//! Errors of the journal and the inode layer.

use vstd::prelude::*;

verus! {

/// The POSIX error number an operation reports.
#[derive(Clone, Copy, Debug, PartialEq, Eq, Structural)]
pub enum Errno {
    EINVAL,
    EUCLEAN,
    EIO,
    ENOSPC,
    EFBIG,
    ESTALE,
    EISDIR,
    EOPNOTSUPP,
    ENAMETOOLONG,
    ENOMEM,
    EROFS,
}

/// One refusal of this library. Each variant is one condition, so a caller can
/// tell apart two refusals that share an error number.
#[derive(Clone, Copy, Debug, PartialEq, Eq, Structural)]
pub enum Error {
    /// The journal superblock does not start with the jbd2 magic.
    BadSuperblockMagic,
    /// The journal superblock is neither of version 1 nor of version 2.
    BadSuperblockType,
    /// The journal block size is not 4 KiB.
    BadBlockSize,
    /// The journal has fewer than two blocks.
    JournalTooSmall,
    /// `s_first` is zero, or past the end of the log.
    FirstOutOfRange,
    /// csum_v2 and csum_v3 are both enabled.
    BothCsumV2V3,
    /// The v1 checksum is enabled beside csum v2/v3.
    BothChecksumVersions,
    /// The checksum algorithm is not crc32c.
    BadChecksumType,
    /// The stored superblock checksum is not the computed one.
    SuperblockChecksum,
    /// A checksum seed was given to a plain layout, or none to a csum layout.
    SeedMismatch,
    /// A tag's flag word has bits above the low sixteen.
    MalformedTagFlags,
    /// A tag would run past the tag area.
    TagPastArea,
    /// A tagged block number needs more than 32 bits on a 32-bit layout.
    BlockTooWide,
    /// No room for one more tag.
    TagAreaFull,
    /// A revoked block number needs more than 32 bits on a 32-bit layout.
    RevokeTooWide,
    /// A transaction without captured blocks cannot commit.
    EmptyTransaction,
    /// No ring of log blocks can hold the transaction.
    TransactionTooLarge,
    /// The transaction does not fit the log, though the tail was drained.
    NoRoomAfterDrain,
    /// A log block index is past the end of the log.
    LogBlockOutOfRange,
    /// The journal superblock's own block is not mapped.
    SuperblockUnmapped,
    /// A chain block does not start with the jbd2 magic.
    ChainBadMagic,
    /// A chain block belongs to another transaction.
    ChainBadTid,
    /// A chain block is no descriptor, revoke or commit block.
    ChainBadType,
    /// A descriptor block's tail checksum is wrong.
    DescriptorChecksum,
    /// A logged block's checksum is wrong.
    DataChecksum,
    /// A chain is longer than the log.
    ChainTooLong,
    /// The journal does not live in the reserved inode.
    UnsupportedJournalInode,
    /// The journal lives on another device.
    ExternalJournal,
    /// The journal inode is not mapped by extents.
    JournalNotExtents,
    /// The journal inode has more blocks than fit 32 bits.
    JournalInodeTooLarge,
    /// The journal inode has fewer than two blocks.
    JournalInodeTooSmall,
    /// A block of the journal inode is a hole or unwritten.
    JournalUnmappedBlock,
    /// The journal has an incompatible feature that is not supported.
    UnsupportedIncompat,
    /// The journal has a read-only compatible feature.
    UnsupportedRoCompat,
    /// `s_maxlen` is larger than the number of mapped blocks.
    MaxlenExceedsMap,
    /// A handle's transaction is no longer running.
    HandleOutlivedTransaction,
    /// A block was patched that was never captured.
    NotCaptured,
    /// A commit phase was entered out of order.
    PhaseOrder,
    /// The journal is aborted.
    Aborted,
    /// The journal is aborted, and so the file system is read-only.
    ReadOnly,
    /// The journal was aborted while a caller waited for room.
    AbortedWaitingForRoom,
    /// The journal is aborted; the awaited transaction will never commit.
    NeverCommits,
    /// The journal is aborted; nothing is checkpointed.
    AbortedNoCheckpoint,
    /// The inode is not in use.
    InodeNotInUse,
    /// The inode's mode names no file type.
    InvalidMode,
    /// A symlink's size is a block or more.
    SymlinkTooLarge,
    /// An inode's size does not fit a signed 64-bit integer.
    InodeTooLarge,
    /// The low half of the inode checksum is wrong.
    InodeChecksumLo,
    /// The high half of the inode checksum is wrong.
    InodeChecksumHi,
    /// The operation does not apply to a directory.
    IsDirectory,
    /// A byte range overflows.
    RangeOverflow,
    /// A logical block index needs more than 32 bits.
    BlockIndexTooWide,
    /// The size is above the largest the inode may have.
    SizeLimit,
    /// One extent insert needs more than a whole transaction.
    InsertExceedsTransaction,
    /// One step of a shrink needs more than a whole transaction.
    ShrinkExceedsTransaction,
    /// The operation applies to regular files only.
    NotRegular,
    /// The allocation mode is not supported.
    UnsupportedFallocMode,
    /// The inode has no page cache.
    NoPageCache,
    /// The inode has no block manager.
    NoBlockManager,
    /// The operation applies to symlinks only.
    NotSymlink,
    /// A symlink target is a block or longer.
    TargetTooLong,
    /// A symlink target is not valid UTF-8.
    TargetNotUtf8,
    /// Work outside this library failed with this error number.
    Outside(Errno),
}

/// The error number of each refusal.
pub open spec fn errno_of(e: Error) -> Errno {
    match e {
        Error::BadSuperblockMagic
        | Error::BadSuperblockType
        | Error::BadBlockSize
        | Error::BothCsumV2V3
        | Error::BothChecksumVersions
        | Error::BadChecksumType
        | Error::SeedMismatch
        | Error::EmptyTransaction
        | Error::UnsupportedJournalInode
        | Error::ExternalJournal
        | Error::UnsupportedIncompat
        | Error::UnsupportedRoCompat
        | Error::RangeOverflow
        | Error::NoPageCache
        | Error::NoBlockManager
        | Error::NotSymlink => Errno::EINVAL,
        Error::JournalTooSmall
        | Error::FirstOutOfRange
        | Error::SuperblockChecksum
        | Error::MalformedTagFlags
        | Error::TagPastArea
        | Error::LogBlockOutOfRange
        | Error::SuperblockUnmapped
        | Error::ChainBadMagic
        | Error::ChainBadTid
        | Error::ChainBadType
        | Error::DescriptorChecksum
        | Error::DataChecksum
        | Error::ChainTooLong
        | Error::JournalNotExtents
        | Error::JournalInodeTooLarge
        | Error::JournalInodeTooSmall
        | Error::JournalUnmappedBlock
        | Error::MaxlenExceedsMap
        | Error::InvalidMode
        | Error::SymlinkTooLarge
        | Error::InodeTooLarge
        | Error::InodeChecksumLo
        | Error::InodeChecksumHi => Errno::EUCLEAN,
        Error::HandleOutlivedTransaction
        | Error::NotCaptured
        | Error::PhaseOrder
        | Error::Aborted
        | Error::AbortedWaitingForRoom
        | Error::NeverCommits
        | Error::AbortedNoCheckpoint
        | Error::TargetNotUtf8 => Errno::EIO,
        Error::TagAreaFull
        | Error::TransactionTooLarge
        | Error::NoRoomAfterDrain => Errno::ENOSPC,
        Error::BlockTooWide
        | Error::RevokeTooWide
        | Error::BlockIndexTooWide
        | Error::SizeLimit
        | Error::InsertExceedsTransaction
        | Error::ShrinkExceedsTransaction => Errno::EFBIG,
        Error::InodeNotInUse => Errno::ESTALE,
        Error::IsDirectory => Errno::EISDIR,
        Error::NotRegular | Error::UnsupportedFallocMode => Errno::EOPNOTSUPP,
        Error::TargetTooLong => Errno::ENAMETOOLONG,
        Error::ReadOnly => Errno::EROFS,
        Error::Outside(errno) => errno,
    }
}

impl Error {
    /// Returns the error number.
    pub fn error(&self) -> (errno: Errno)
        ensures
            errno == errno_of(*self),
    {
        match *self {
            Error::BadSuperblockMagic
            | Error::BadSuperblockType
            | Error::BadBlockSize
            | Error::BothCsumV2V3
            | Error::BothChecksumVersions
            | Error::BadChecksumType
            | Error::SeedMismatch
            | Error::EmptyTransaction
            | Error::UnsupportedJournalInode
            | Error::ExternalJournal
            | Error::UnsupportedIncompat
            | Error::UnsupportedRoCompat
            | Error::RangeOverflow
            | Error::NoPageCache
            | Error::NoBlockManager
            | Error::NotSymlink => Errno::EINVAL,
            Error::HandleOutlivedTransaction
            | Error::NotCaptured
            | Error::PhaseOrder
            | Error::Aborted
            | Error::AbortedWaitingForRoom
            | Error::NeverCommits
            | Error::AbortedNoCheckpoint
            | Error::TargetNotUtf8 => Errno::EIO,
            Error::TagAreaFull
                | Error::TransactionTooLarge
            | Error::NoRoomAfterDrain => Errno::ENOSPC,
            Error::BlockTooWide
            | Error::RevokeTooWide
            | Error::BlockIndexTooWide
            | Error::SizeLimit
            | Error::InsertExceedsTransaction
            | Error::ShrinkExceedsTransaction => Errno::EFBIG,
            Error::InodeNotInUse => Errno::ESTALE,
            Error::IsDirectory => Errno::EISDIR,
            Error::NotRegular | Error::UnsupportedFallocMode => Errno::EOPNOTSUPP,
            Error::TargetTooLong => Errno::ENAMETOOLONG,
            Error::ReadOnly => Errno::EROFS,
            Error::Outside(errno) => errno,
            _ => Errno::EUCLEAN,
        }
    }
}

/// Which refusals report which number, if they do not come from outside: a name that
/// is too long, a directory in the place of a file, a file system that is read-only, a
/// stale inode, what is not supported, what is too large, and what has no room are
/// told apart. An inode or a journal that is damaged is unclean, and a journal that
/// has aborted or is used out of order is a failure of input and output. All else is
/// an invalid argument.
pub proof fn refusals_report_their_numbers(e: Error, errno: Errno)
    requires
        call_ensures(Error::error, (&e,), errno),
    ensures
        e matches Error::Outside(n) ==> errno == n,
        !(e is Outside) ==> {
            &&& errno == Errno::ENAMETOOLONG <==> e == Error::TargetTooLong
            &&& errno == Errno::EISDIR <==> e == Error::IsDirectory
            &&& errno == Errno::EROFS <==> e == Error::ReadOnly
            &&& errno == Errno::ESTALE <==> e == Error::InodeNotInUse
            &&& errno == Errno::EOPNOTSUPP <==> e == Error::NotRegular || e
                == Error::UnsupportedFallocMode
            &&& errno == Errno::EFBIG <==> e == Error::SizeLimit || e == Error::BlockIndexTooWide
                || e == Error::BlockTooWide || e == Error::RevokeTooWide || e
                == Error::InsertExceedsTransaction || e == Error::ShrinkExceedsTransaction
            &&& errno == Errno::ENOSPC <==> e == Error::TagAreaFull || e
                == Error::TransactionTooLarge || e == Error::NoRoomAfterDrain
            &&& errno == Errno::EIO <==> e == Error::Aborted || e == Error::AbortedWaitingForRoom
                || e == Error::AbortedNoCheckpoint || e == Error::NeverCommits || e
                == Error::HandleOutlivedTransaction || e == Error::NotCaptured || e
                == Error::PhaseOrder || e == Error::TargetNotUtf8
            &&& errno == Errno::EINVAL <==> e == Error::BadSuperblockMagic || e
                == Error::BadSuperblockType || e == Error::BadBlockSize || e == Error::BothCsumV2V3
                || e == Error::BothChecksumVersions || e == Error::BadChecksumType || e
                == Error::SeedMismatch || e == Error::EmptyTransaction || e
                == Error::UnsupportedJournalInode || e == Error::ExternalJournal || e
                == Error::UnsupportedIncompat || e == Error::UnsupportedRoCompat || e
                == Error::RangeOverflow || e == Error::NoPageCache || e == Error::NoBlockManager
                || e == Error::NotSymlink
            &&& errno != Errno::ENOMEM
        },
        e == Error::ChainBadMagic || e == Error::DataChecksum || e == Error::DescriptorChecksum || e
            == Error::SuperblockChecksum || e == Error::InodeChecksumLo || e
            == Error::InodeChecksumHi || e == Error::InvalidMode ==> errno == Errno::EUCLEAN,
{
}

} // verus!
