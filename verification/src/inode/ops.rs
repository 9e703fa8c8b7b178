//! The steps of which file operations are made.
//!
//! An operation is planned as a list of steps, which its caller performs in
//! order: on the page cache, on the extent tree, on the orphan list, in the
//! journal, and on the inode itself. When a step fails, the rest is left out.

use vstd::prelude::*;

use crate::error::Error;
use crate::inode::desc::{Dtime, InodeDesc};
use crate::inode::node::{pages_for, ExtentSnapshot, Inode, InodePayload, PAGE_SIZE};
use crate::inode::time::Duration;
use crate::journal::tid::Tid;

verus! {

/// What kind of room an operation reserves in its transaction.
#[derive(Clone, Copy, Debug, PartialEq, Eq, Structural)]
pub enum Reserve {
    /// For one chunk of a write.
    Write,
    /// For one chunk of a truncation.
    Truncate,
    /// For one chunk of a truncation, and for freeing the inode.
    Reclaim,
    /// For writing the inode back.
    Sync,
    /// For a change of the attributes.
    Setattr,
}

/// A change of how far the page cache reaches.
#[derive(Clone, Copy, Debug, PartialEq, Eq, Structural)]
pub struct CacheResize {
    pub new: u64,
    pub old: u64,
    /// The block whose end is inside a page that is kept. If it is mapped, the
    /// rest of the page is filled with zeros.
    pub probe: Option<u32>,
}

/// One step of a file operation.
#[derive(Clone, Copy, Debug, PartialEq, Eq, Structural)]
pub enum FileOp {
    /// Joins a transaction.
    BeginOp(Reserve),
    /// Makes room in the transaction for one more chunk.
    EnsureCredits(Reserve),
    /// Leaves the transaction and joins a new one with so much room.
    Restart { credits: usize },
    /// Writes the dirty pages of these bytes.
    FlushPages { start: u64, end: u64 },
    /// Writes the dirty pages of these bytes and drops them.
    InvalidatePages { start: u64, end: u64 },
    /// Fills these bytes of one block with zeros, if the block is mapped.
    ZeroIfMapped { block: u32, start: u64, end: u64 },
    /// Changes how far the page cache reaches.
    ResizeCache(CacheResize),
    /// Copies the bytes that are written into the page cache.
    WritePages { start: u64, end: u64 },
    /// Maps the holes among these blocks, as unwritten.
    Allocate { first: u32, stop: u32 },
    /// Maps the holes among these blocks as far as the transaction has room.
    AllocateChunk { first: u32, stop: u32 },
    /// Turns unwritten blocks into written ones.
    MarkWritten { first: u32, stop: u32 },
    /// Frees all blocks past this size.
    Truncate { size: u64 },
    /// Frees blocks past this size as far as the transaction has room.
    TruncateChunk { size: u64 },
    /// Frees these blocks.
    PunchRange { first: u32, stop: u32 },
    /// Frees some of these blocks, as far as the transaction has room.
    PunchChunk { first: u32, stop: u32 },
    /// Puts the inode on the orphan list.
    OrphanAdd,
    /// Puts the inode on the orphan list, if it is not on it.
    OrphanAddIfAbsent,
    /// Takes the inode off the orphan list.
    OrphanDel,
    /// Has the data written before the transaction commits.
    RegisterOrdered,
    /// Sets the size.
    SetSize { size: u64 },
    /// Sets the times of the last modification and of the last change to now.
    StampTimes,
    /// Sets the time of the deletion to now.
    SetDeleted,
    /// Clears the time of the deletion.
    ClearDeleted,
    /// Writes the inode back into the transaction.
    WriteBack,
    /// Notes the transaction as one that reading the data back needs.
    StampDatasync,
    /// Frees the inode.
    FreeInode,
}

/// The inode after a step was performed, in the transaction `tid` if there is a
/// journal. A write back takes the extent tree as it is then; where nothing has
/// changed, it leaves the inode as it is.
pub open spec fn after_op(
    inode: Inode,
    op: FileOp,
    now: Duration,
    tid: Option<Tid>,
    extents: ExtentSnapshot,
) -> Inode {
    match op {
        FileOp::ResizeCache(resize) => Inode {
            payload: match inode.payload {
                InodePayload::DataBacked { forget, .. } => InodePayload::DataBacked {
                    forget,
                    npages: pages_for(resize.new) as u64,
                },
                other => other,
            },
            ..inode
        },
        FileOp::SetSize { size } => Inode {
            desc: InodeDesc { size, ..inode.desc },
            dirty: true,
            ..inode
        },
        FileOp::StampTimes => Inode {
            desc: InodeDesc { mtime: now, ctime: now, ..inode.desc },
            dirty: true,
            ..inode
        },
        FileOp::SetDeleted => Inode {
            desc: InodeDesc { dtime: Dtime::Time(now), ..inode.desc },
            dirty: true,
            ..inode
        },
        FileOp::ClearDeleted => Inode {
            desc: InodeDesc {
                dtime: Dtime::Time(Duration { secs: 0, nanos: 0 }),
                ..inode.desc
            },
            dirty: true,
            ..inode
        },
        FileOp::WriteBack => inode.written_back(extents, tid),
        FileOp::StampDatasync => Inode {
            datasync_tid: if tid is Some {
                tid
            } else {
                inode.datasync_tid
            },
            ..inode
        },
        _ => inode,
    }
}

/// The inode after steps were performed. `seen` has the extent tree as each step
/// finds it.
pub open spec fn after_ops(
    inode: Inode,
    ops: Seq<FileOp>,
    now: Duration,
    tid: Option<Tid>,
    seen: Seq<ExtentSnapshot>,
) -> Inode
    decreases ops.len(),
{
    if ops.len() == 0 {
        inode
    } else {
        after_op(
            after_ops(inode, ops.drop_last(), now, tid, seen),
            ops.last(),
            now,
            tid,
            seen[ops.len() - 1],
        )
    }
}

impl Inode {
    /// Brings the inode up to a step that was performed.
    pub fn apply(
        &mut self,
        op: FileOp,
        now: Duration,
        tid: Option<Tid>,
        extents: &ExtentSnapshot,
    )
        ensures
            *final(self) == after_op(*old(self), op, now, tid, *extents),
    {
        match op {
            FileOp::ResizeCache(resize) => self.set_npages(resize.new),
            FileOp::SetSize { size } => self.set_file_size(size),
            FileOp::StampTimes => self.set_mtime_ctime(now),
            FileOp::SetDeleted => self.set_dtime(now),
            FileOp::ClearDeleted => self.set_dtime(Duration::zero()),
            FileOp::WriteBack => self.clear_dirty(extents, tid),
            FileOp::StampDatasync => self.stamp_datasync_tid(tid),
            _ => {},
        }
    }
}

/// Steps keep an inode well-formed.
pub proof fn steps_keep_the_inode_well_formed(
    inode: Inode,
    ops: Seq<FileOp>,
    now: Duration,
    tid: Option<Tid>,
    seen: Seq<ExtentSnapshot>,
)
    requires
        inode.wf(),
        now.wf(),
    ensures
        after_ops(inode, ops, now, tid, seen).wf(),
    decreases ops.len(),
{
    if ops.len() > 0 {
        steps_keep_the_inode_well_formed(inode, ops.drop_last(), now, tid, seen);
    }
}

/// The size after steps is the last that was set, or the one from before.
pub proof fn lemma_size_after(
    inode: Inode,
    ops: Seq<FileOp>,
    now: Duration,
    tid: Option<Tid>,
    size: u64,
    seen: Seq<ExtentSnapshot>,
)
    requires
        inode.desc.size == size || exists|i: int|
            0 <= i < ops.len() && #[trigger] ops[i] == (FileOp::SetSize { size }),
        forall|i: int|
            0 <= i < ops.len() ==> !(#[trigger] ops[i] is SetSize) || ops[i] == (
            FileOp::SetSize { size }),
    ensures
        after_ops(inode, ops, now, tid, seen).desc.size == size,
    decreases ops.len(),
{
    if ops.len() > 0 {
        let init = ops.drop_last();
        assert forall|i: int| 0 <= i < init.len() implies !(#[trigger] init[i] is SetSize)
            || init[i] == (FileOp::SetSize { size }) by {
            assert(init[i] == ops[i]);
        }
        if ops.last() != (FileOp::SetSize { size }) {
            if inode.desc.size != size {
                let i = choose|i: int|
                    0 <= i < ops.len() && #[trigger] ops[i] == (FileOp::SetSize { size });
                assert(init[i] == FileOp::SetSize { size });
            }
            lemma_size_after(inode, init, now, tid, size, seen);
        }
    }
}

/// Steps do not move the data of an inode from a page cache or to one.
pub proof fn lemma_backed_after(
    inode: Inode,
    ops: Seq<FileOp>,
    now: Duration,
    tid: Option<Tid>,
    seen: Seq<ExtentSnapshot>,
)
    ensures
        (after_ops(inode, ops, now, tid, seen).payload is DataBacked) == (
        inode.payload is DataBacked),
    decreases ops.len(),
{
    if ops.len() > 0 {
        lemma_backed_after(inode, ops.drop_last(), now, tid, seen);
    }
}

/// Whether changes of the extent tree or the size are in the transaction while
/// the inode, which belongs to them, is not: after a step, if the step is safe.
/// A transaction may be left only when the inode is in it too.
pub open spec fn seam_step(pending: bool, op: FileOp) -> Option<bool> {
    match op {
        FileOp::MarkWritten { .. } | FileOp::SetSize { .. } | FileOp::StampTimes => Some(true),
        FileOp::WriteBack => Some(false),
        FileOp::Restart { .. } | FileOp::EnsureCredits(_) => if pending {
            None
        } else {
            Some(false)
        },
        _ => Some(pending),
    }
}

/// Whether changes wait for the inode after steps, if all of them are safe.
pub open spec fn seam_after(pending: bool, ops: Seq<FileOp>) -> Option<bool>
    decreases ops.len(),
{
    if ops.len() == 0 {
        Some(pending)
    } else {
        match seam_after(pending, ops.drop_last()) {
            Some(before) => seam_step(before, ops.last()),
            None => None,
        }
    }
}

/// Steps after steps.
pub proof fn lemma_seam_concat(pending: bool, first: Seq<FileOp>, rest: Seq<FileOp>)
    requires
        seam_after(pending, first) is Some,
    ensures
        seam_after(pending, first + rest) == seam_after(seam_after(pending, first)->0, rest),
    decreases rest.len(),
{
    if rest.len() == 0 {
        assert(first + rest =~= first);
    } else {
        assert((first + rest).drop_last() =~= first + rest.drop_last());
        lemma_seam_concat(pending, first, rest.drop_last());
    }
}

/// Up to three steps, one by one.
pub proof fn lemma_seam_short(pending: bool, a: FileOp, b: FileOp, c: FileOp)
    ensures
        seam_after(pending, seq![a]) == seam_step(pending, a),
        seam_step(pending, a) matches Some(p) ==> seam_after(pending, seq![a, b]) == seam_step(
            p,
            b,
        ),
        seam_step(pending, a) matches Some(p) ==> (seam_step(p, b) matches Some(q) ==> seam_after(
            pending,
            seq![a, b, c],
        ) == seam_step(q, c)),
{
    reveal_with_fuel(seam_after, 4);
    assert(seq![a, b, c].drop_last() =~= seq![a, b]);
    assert(seq![a, b].drop_last() =~= seq![a]);
    assert(seq![a].drop_last() =~= seq![]);
}

/// The page where a resize of the page cache ends inside of a kept page.
pub open spec fn boundary(new: u64, old: u64) -> u64 {
    if new < old {
        new
    } else {
        old
    }
}

/// Whether the boundary of a resize is inside of a page, in a block that has
/// no 32-bit index.
pub open spec fn boundary_too_wide(new: u64, old: u64) -> bool {
    boundary(new, old) % PAGE_SIZE != 0 && boundary(new, old) / PAGE_SIZE > u32::MAX
}

/// The resize of a page cache.
pub open spec fn cache_resize(new: u64, old: u64) -> CacheResize {
    CacheResize {
        new,
        old,
        probe: if boundary(new, old) % PAGE_SIZE == 0 {
            None
        } else {
            Some((boundary(new, old) / PAGE_SIZE) as u32)
        },
    }
}

/// `size` up to the end of its page.
pub open spec fn page_end(size: u64) -> int {
    pages_for(size) * PAGE_SIZE
}

impl CacheResize {
    /// Plans to resize a page cache: if the boundary is inside of a page, its
    /// block has to be looked up.
    pub fn plan(new: u64, old: u64) -> (r: Result<Self, Error>)
        ensures
            r == (if boundary_too_wide(new, old) {
                Err::<CacheResize, Error>(Error::BlockIndexTooWide)
            } else {
                Ok(cache_resize(new, old))
            }),
    {
        let at: u64 = if new < old {
            new
        } else {
            old
        };
        if at % PAGE_SIZE == 0 {
            return Ok(CacheResize { new, old, probe: None });
        }
        let block: u64 = at / PAGE_SIZE;
        if block > u32::MAX as u64 {
            return Err(Error::BlockIndexTooWide);
        }
        Ok(CacheResize { new, old, probe: Some(block as u32) })
    }

    /// The sizes, new and old, to which the page cache is told to go. They are
    /// exact if the block at the boundary is mapped, so that the rest of its
    /// page is filled with zeros. Over a hole they are whole pages, and no page
    /// is made dirty that has no block.
    pub fn sizes(&self, mapped: bool) -> (r: (u64, u64))
        requires
            page_end(self.new) <= u64::MAX,
            page_end(self.old) <= u64::MAX,
        ensures
            r == (if self.probe is Some && mapped {
                (self.new, self.old)
            } else {
                (page_end(self.new) as u64, page_end(self.old) as u64)
            }),
    {
        if self.probe.is_some() && mapped {
            (self.new, self.old)
        } else {
            (whole_pages(self.new), whole_pages(self.old))
        }
    }
}

/// `size` up to the end of its page.
pub fn whole_pages(size: u64) -> (r: u64)
    requires
        page_end(size) <= u64::MAX,
    ensures
        r == page_end(size),
{
    if size % PAGE_SIZE == 0 {
        size
    } else {
        (size / PAGE_SIZE + 1) * PAGE_SIZE
    }
}

/// Resizing a page cache never fills zeros over a hole: either the block at the
/// boundary is mapped, or both sizes are whole pages.
pub proof fn resize_spares_holes(resize: CacheResize, mapped: bool, sizes: (u64, u64))
    requires
        page_end(resize.new) <= u64::MAX,
        page_end(resize.old) <= u64::MAX,
        sizes == (if resize.probe is Some && mapped {
            (resize.new, resize.old)
        } else {
            (page_end(resize.new) as u64, page_end(resize.old) as u64)
        }),
    ensures
        mapped || (sizes.0 % PAGE_SIZE == 0 && sizes.1 % PAGE_SIZE == 0),
        pages_for(sizes.0) == pages_for(resize.new),
{
}

} // verus!
