//! Truncating and extending files.
//!
//! A shrink that fits one transaction is one list of steps. A larger one frees
//! its blocks chunk by chunk, each in a transaction of its own, with the inode
//! on the orphan list: after a crash, it is taken up again from there. Deleted
//! inodes are freed in the same way.

use vstd::prelude::*;

use crate::error::Error;
use crate::inode::desc::{Dtime, InodeType};
use crate::inode::node::{size_limit, ExtentSnapshot, Inode, PAGE_SIZE};
use crate::inode::ops::{
    after_ops, boundary_too_wide, cache_resize, lemma_size_after, CacheResize, FileOp, Reserve,
};
use crate::inode::time::Duration;
use crate::journal::tid::Tid;

verus! {

/// Steps to perform, and the error with which the operation ends after them.
pub struct Plan {
    pub ops: Vec<FileOp>,
    pub fault: Option<Error>,
}

/// What freeing the end of an extent tree costs.
#[derive(Clone, Copy, Debug, PartialEq, Eq, Structural)]
pub struct ShrinkEstimate {
    /// The most room that a single transaction would need for all of it.
    pub whole_estimate: usize,
    /// Whether one step of it needs more room than any transaction has.
    pub floor_efbig: bool,
}

/// The first byte of the block that `size` ends in.
pub open spec fn block_start(size: u64) -> u64 {
    (size / PAGE_SIZE * PAGE_SIZE) as u64
}

/// Blocks that `size` bytes need.
pub open spec fn blocks_for(size: u64) -> int {
    (size + PAGE_SIZE - 1) / PAGE_SIZE as int
}

/// Blocks that `size` bytes need, if they can be counted in 32 bits.
pub fn block_count(size: u64) -> (r: Result<u32, Error>)
    ensures
        r == (if blocks_for(size) > u32::MAX {
            Err::<u32, Error>(Error::BlockIndexTooWide)
        } else {
            Ok(blocks_for(size) as u32)
        }),
{
    let n: u64 = if size % PAGE_SIZE == 0 {
        size / PAGE_SIZE
    } else {
        size / PAGE_SIZE + 1
    };
    if n > u32::MAX as u64 {
        Err(Error::BlockIndexTooWide)
    } else {
        Ok(n as u32)
    }
}

/// The steps that come first in a shrink. The doomed pages are written, as an
/// earlier transaction may rest on them. Then the page cache shrinks, and then
/// the size.
pub open spec fn shrink_front(inode: Inode, new_size: u64) -> (Seq<FileOp>, Option<Error>) {
    let old_size = inode.desc.size;
    let flush = FileOp::FlushPages { start: block_start(new_size), end: old_size };
    if !(inode.payload is DataBacked) {
        (seq![], Some(Error::NoPageCache))
    } else if boundary_too_wide(new_size, old_size) {
        (seq![flush], Some(Error::BlockIndexTooWide))
    } else {
        (
            seq![
                flush,
                FileOp::ResizeCache(cache_resize(new_size, old_size)),
                FileOp::SetSize { size: new_size },
            ],
            None,
        )
    }
}

/// The steps of an extension, which allocates nothing. The size grows before
/// the page cache.
pub open spec fn expand_steps(inode: Inode, new_size: u64, max_file_size: u64) -> (
    Seq<FileOp>,
    Option<Error>,
) {
    let old_size = inode.desc.size;
    let set = FileOp::SetSize { size: new_size };
    if new_size > size_limit(inode.desc.type_, max_file_size) {
        (seq![], Some(Error::SizeLimit))
    } else if !(inode.payload is DataBacked) {
        (seq![set], Some(Error::NoPageCache))
    } else if boundary_too_wide(new_size, old_size) {
        (seq![set], Some(Error::BlockIndexTooWide))
    } else {
        (
            seq![
                set,
                FileOp::ResizeCache(cache_resize(new_size, old_size)),
                FileOp::StampTimes,
            ],
            None,
        )
    }
}

/// The steps that change the size in one transaction.
pub open spec fn resize_steps(inode: Inode, new_size: u64, max_file_size: u64) -> (
    Seq<FileOp>,
    Option<Error>,
) {
    if new_size < inode.desc.size {
        let (front, fault) = shrink_front(inode, new_size);
        if fault is Some {
            (front, fault)
        } else {
            (front + seq![FileOp::Truncate { size: new_size }, FileOp::StampTimes], None)
        }
    } else if new_size > inode.desc.size {
        expand_steps(inode, new_size, max_file_size)
    } else {
        (seq![], None)
    }
}

/// All steps of a change of the size in one transaction. With a journal, the
/// inode goes into the transaction too; and where a shrink filled zeros, they
/// are written before it commits.
pub open spec fn whole_resize(inode: Inode, new_size: u64, journaled: bool, max_file_size: u64) -> (
    Seq<FileOp>,
    Option<Error>,
) {
    let (steps, fault) = resize_steps(inode, new_size, max_file_size);
    let opened = seq![FileOp::BeginOp(Reserve::Truncate)] + steps;
    if fault is Some || !journaled {
        (opened, fault)
    } else if new_size < inode.desc.size {
        (
            opened + seq![FileOp::WriteBack, FileOp::StampDatasync, FileOp::RegisterOrdered],
            None,
        )
    } else {
        (opened + seq![FileOp::WriteBack, FileOp::StampDatasync], None)
    }
}

/// The steps that a shrink over many transactions starts with.
pub open spec fn chunked_front(inode: Inode, new_size: u64) -> (Seq<FileOp>, Option<Error>) {
    let (front, fault) = shrink_front(inode, new_size);
    if fault is Some {
        (front, fault)
    } else if blocks_for(new_size) > u32::MAX {
        (front, Some(Error::BlockIndexTooWide))
    } else {
        (
            front + seq![
                FileOp::BeginOp(Reserve::Truncate),
                FileOp::OrphanAdd,
                FileOp::WriteBack,
                FileOp::RegisterOrdered,
                FileOp::TruncateChunk { size: new_size },
            ],
            None,
        )
    }
}

/// Whether a shrink needs more than one transaction.
pub open spec fn needs_chunks(estimate: Option<ShrinkEstimate>, max_credits: usize) -> bool {
    estimate matches Some(e) && e.whole_estimate > max_credits
}

/// A change of the size.
pub enum ResizePlan {
    /// In one transaction.
    Whole(Plan),
    /// In many: the steps up to the first chunk, and how they go on.
    Chunked(Plan, FreeLoop),
}

/// What follows when all blocks are freed.
#[derive(Clone, Copy, Debug, PartialEq, Eq, Structural)]
pub enum FreeEnd {
    /// The file lives on, with its new size.
    Datasync,
    /// The inode is freed too.
    FreeInode,
}

/// The freeing of the end of a file, chunk by chunk.
#[derive(Clone, Copy, Debug, PartialEq, Eq, Structural)]
pub struct FreeLoop {
    /// The size that stays.
    pub size: u64,
    /// Blocks that stay.
    pub keep: u32,
    pub end: FreeEnd,
}

/// What was left after a chunk: the first block that is free from there on,
/// and the room that the next chunk needs.
#[derive(Clone, Copy, Debug, PartialEq, Eq, Structural)]
pub struct FreedChunk {
    pub reached: u32,
    pub next_bound: usize,
}

/// The step that ends an operation.
pub open spec fn end_step(end: FreeEnd) -> FileOp {
    match end {
        FreeEnd::Datasync => FileOp::StampDatasync,
        FreeEnd::FreeInode => FileOp::FreeInode,
    }
}

/// The steps after the last chunk. The inode leaves the orphan list before it is
/// written back, so that it is written with its own deletion time.
pub open spec fn last_steps(end: FreeEnd) -> Seq<FileOp> {
    seq![FileOp::OrphanDel, FileOp::WriteBack, end_step(end)]
}

/// The steps after a chunk: what it freed is written back in the same
/// transaction, before the next is joined.
pub open spec fn steps_after_chunk(free: FreeLoop, chunk: FreedChunk) -> Seq<FileOp> {
    if chunk.reached <= free.keep {
        last_steps(free.end)
    } else {
        seq![
            FileOp::WriteBack,
            FileOp::Restart { credits: chunk.next_bound },
            FileOp::TruncateChunk { size: free.size },
        ]
    }
}

impl FreeLoop {
    /// The steps after a chunk was freed. They end with the next chunk, unless
    /// this was the last.
    pub fn on_chunk(&self, chunk: FreedChunk) -> (ops: Vec<FileOp>)
        ensures
            ops@ == steps_after_chunk(*self, chunk),
    {
        if chunk.reached <= self.keep {
            last_ops(self.end)
        } else {
            vec![
                FileOp::WriteBack,
                FileOp::Restart { credits: chunk.next_bound },
                FileOp::TruncateChunk { size: self.size },
            ]
        }
    }
}

/// The steps after the last chunk.
fn last_ops(end: FreeEnd) -> (ops: Vec<FileOp>)
    ensures
        ops@ == last_steps(end),
{
    let step = match end {
        FreeEnd::Datasync => FileOp::StampDatasync,
        FreeEnd::FreeInode => FileOp::FreeInode,
    };
    vec![FileOp::OrphanDel, FileOp::WriteBack, step]
}

/// The steps that come first in a shrink.
fn prepare_shrink(inode: &Inode, new_size: u64) -> (plan: Plan)
    ensures
        (plan.ops@, plan.fault) == shrink_front(*inode, new_size),
{
    let old_size: u64 = inode.desc.size;
    let mut ops: Vec<FileOp> = Vec::new();
    if !inode.payload.is_data_backed() {
        assert(ops@ =~= seq![]);
        return Plan { ops, fault: Some(Error::NoPageCache) };
    }
    ops.push(FileOp::FlushPages { start: new_size / PAGE_SIZE * PAGE_SIZE, end: old_size });
    match CacheResize::plan(new_size, old_size) {
        Err(e) => {
            assert(ops@ =~= shrink_front(*inode, new_size).0);
            Plan { ops, fault: Some(e) }
        },
        Ok(resize) => {
            ops.push(FileOp::ResizeCache(resize));
            ops.push(FileOp::SetSize { size: new_size });
            assert(ops@ =~= shrink_front(*inode, new_size).0);
            Plan { ops, fault: None }
        },
    }
}

/// The steps of an extension.
fn expand(inode: &Inode, new_size: u64, max_file_size: u64) -> (plan: Plan)
    ensures
        (plan.ops@, plan.fault) == expand_steps(*inode, new_size, max_file_size),
{
    let mut ops: Vec<FileOp> = Vec::new();
    match inode.ensure_size_within_limit(new_size, max_file_size) {
        Err(e) => {
            assert(ops@ =~= seq![]);
            return Plan { ops, fault: Some(e) };
        },
        Ok(()) => {},
    }
    ops.push(FileOp::SetSize { size: new_size });
    if !inode.payload.is_data_backed() {
        assert(ops@ =~= expand_steps(*inode, new_size, max_file_size).0);
        return Plan { ops, fault: Some(Error::NoPageCache) };
    }
    match CacheResize::plan(new_size, inode.desc.size) {
        Err(e) => {
            assert(ops@ =~= expand_steps(*inode, new_size, max_file_size).0);
            Plan { ops, fault: Some(e) }
        },
        Ok(resize) => {
            ops.push(FileOp::ResizeCache(resize));
            ops.push(FileOp::StampTimes);
            assert(ops@ =~= expand_steps(*inode, new_size, max_file_size).0);
            Plan { ops, fault: None }
        },
    }
}

/// A change of the size in one transaction.
fn resize_whole(inode: &Inode, new_size: u64, journaled: bool, max_file_size: u64) -> (plan: Plan)
    ensures
        (plan.ops@, plan.fault) == whole_resize(*inode, new_size, journaled, max_file_size),
{
    let mut ops: Vec<FileOp> = vec![FileOp::BeginOp(Reserve::Truncate)];
    let mut fault: Option<Error> = None;
    if new_size < inode.desc.size {
        let mut front = prepare_shrink(inode, new_size);
        fault = front.fault;
        ops.append(&mut front.ops);
        if fault.is_none() {
            ops.push(FileOp::Truncate { size: new_size });
            ops.push(FileOp::StampTimes);
        }
    } else if new_size > inode.desc.size {
        let mut steps = expand(inode, new_size, max_file_size);
        fault = steps.fault;
        ops.append(&mut steps.ops);
    }
    if journaled && fault.is_none() {
        ops.push(FileOp::WriteBack);
        ops.push(FileOp::StampDatasync);
        if new_size < inode.desc.size {
            ops.push(FileOp::RegisterOrdered);
        }
    }
    assert(ops@ =~= whole_resize(*inode, new_size, journaled, max_file_size).0);
    Plan { ops, fault }
}

impl Inode {
    /// Whether a change of the size depends on what it costs to free blocks.
    pub open spec fn wants_estimate(self, new_size: u64, journaled: bool) -> bool {
        new_size < self.desc.size && journaled && self.payload is DataBacked
    }

    /// Whether a change of the size depends on what it costs to free blocks.
    pub fn needs_shrink_estimate(&self, new_size: u64, journaled: bool) -> (r: bool)
        ensures
            r == self.wants_estimate(new_size, journaled),
    {
        new_size < self.desc.size && journaled && self.payload.is_data_backed()
    }

    /// Plans to truncate or extend the file. A shrink that cannot be split is
    /// refused before anything is changed.
    pub fn resize(
        &self,
        new_size: u64,
        journaled: bool,
        max_file_size: u64,
        max_credits: usize,
        estimate: Option<ShrinkEstimate>,
    ) -> (r: Result<ResizePlan, Error>)
        requires
            self.wants_estimate(new_size, journaled) == (estimate is Some),
        ensures
            match r {
                Err(e) => {
                    ||| self.desc.type_ == InodeType::Dir && e == Error::IsDirectory
                    ||| self.desc.type_ != InodeType::Dir && needs_chunks(estimate, max_credits)
                        && estimate->0.floor_efbig && e == Error::ShrinkExceedsTransaction
                },
                Ok(ResizePlan::Whole(plan)) => {
                    &&& self.desc.type_ != InodeType::Dir
                    &&& !needs_chunks(estimate, max_credits)
                    &&& (plan.ops@, plan.fault) == whole_resize(
                        *self,
                        new_size,
                        journaled,
                        max_file_size,
                    )
                },
                Ok(ResizePlan::Chunked(plan, free)) => {
                    &&& self.desc.type_ != InodeType::Dir
                    &&& needs_chunks(estimate, max_credits)
                    &&& !estimate->0.floor_efbig
                    &&& (plan.ops@, plan.fault) == chunked_front(*self, new_size)
                    &&& plan.fault is None ==> free == (FreeLoop {
                        size: new_size,
                        keep: blocks_for(new_size) as u32,
                        end: FreeEnd::Datasync,
                    })
                },
            },
    {
        if self.desc.type_ == InodeType::Dir {
            return Err(Error::IsDirectory);
        }
        match estimate {
            Some(estimate) => {
                if estimate.whole_estimate > max_credits {
                    if estimate.floor_efbig {
                        return Err(Error::ShrinkExceedsTransaction);
                    }
                    let (plan, free) = shrink_restartable(self, new_size);
                    return Ok(ResizePlan::Chunked(plan, free));
                }
            },
            None => {},
        }
        Ok(ResizePlan::Whole(resize_whole(self, new_size, journaled, max_file_size)))
    }

    /// The steps that finish a shrink which a crash interrupted. The inode is on
    /// the orphan list, and what its deletion time holds is of that list.
    pub fn retruncate_to(&self, target: u64, journaled: bool) -> (r: (Plan, FreeLoop))
        ensures
            (r.0.ops@, r.0.fault) == retruncate_steps(*self, target, journaled),
            r.0.fault is None ==> r.1 == (FreeLoop {
                size: target,
                keep: blocks_for(target) as u32,
                end: FreeEnd::Datasync,
            }),
    {
        let mut ops: Vec<FileOp> = vec![FileOp::ClearDeleted];
        let none = FreeLoop { size: target, keep: 0, end: FreeEnd::Datasync };
        let keep: u32 = match block_count(target) {
            Err(e) => {
                assert(ops@ =~= seq![FileOp::ClearDeleted]);
                return (Plan { ops, fault: Some(e) }, none);
            },
            Ok(keep) => keep,
        };
        if !self.payload.is_data_backed() {
            assert(ops@ =~= seq![FileOp::ClearDeleted]);
            return (Plan { ops, fault: Some(Error::NoBlockManager) }, none);
        }
        ops.push(FileOp::BeginOp(Reserve::Truncate));
        if journaled {
            ops.push(FileOp::TruncateChunk { size: target });
        } else {
            ops.push(FileOp::Truncate { size: target });
            let mut last = last_ops(FreeEnd::Datasync);
            ops.append(&mut last);
        }
        assert(ops@ =~= retruncate_steps(*self, target, journaled).0);
        (Plan { ops, fault: None }, FreeLoop { size: target, keep, end: FreeEnd::Datasync })
    }

    /// The steps that free a deleted inode, or nothing if it has links or was
    /// freed before.
    pub fn try_reclaim_deleted_inode(&self, allocated: bool, journaled: bool, sectors: u64) -> (r:
        Option<(Vec<FileOp>, FreeLoop)>)
        ensures
            r is Some <==> reclaim_due(*self, allocated),
            r matches Some((ops, free)) ==> {
                &&& ops@ == reclaim_steps(*self, journaled, sectors)
                &&& free == (FreeLoop { size: 0, keep: 0, end: FreeEnd::FreeInode })
            },
    {
        if self.desc.link_count != 0 {
            return None;
        }
        if !allocated {
            return None;
        }
        let mut ops: Vec<FileOp> = vec![
            FileOp::BeginOp(Reserve::Reclaim),
            FileOp::OrphanAddIfAbsent,
        ];
        let backed = self.payload.is_data_backed();
        if backed {
            ops.push(
                FileOp::ResizeCache(CacheResize { new: 0, old: self.desc.size, probe: None }),
            );
        }
        ops.push(FileOp::SetDeleted);
        ops.push(FileOp::SetSize { size: 0 });
        if backed && sectors > 0 && journaled {
            ops.push(FileOp::TruncateChunk { size: 0 });
        } else {
            if backed && sectors > 0 {
                ops.push(FileOp::Truncate { size: 0 });
            }
            let mut last = last_ops(FreeEnd::FreeInode);
            ops.append(&mut last);
        }
        assert(ops@ =~= reclaim_steps(*self, journaled, sectors));
        Some((ops, FreeLoop { size: 0, keep: 0, end: FreeEnd::FreeInode }))
    }
}

/// The steps up to the first chunk of a shrink.
fn shrink_restartable(inode: &Inode, new_size: u64) -> (r: (Plan, FreeLoop))
    ensures
        (r.0.ops@, r.0.fault) == chunked_front(*inode, new_size),
        r.0.fault is None ==> r.1 == (FreeLoop {
            size: new_size,
            keep: blocks_for(new_size) as u32,
            end: FreeEnd::Datasync,
        }),
{
    let none = FreeLoop { size: new_size, keep: 0, end: FreeEnd::Datasync };
    let mut plan = prepare_shrink(inode, new_size);
    if plan.fault.is_some() {
        return (plan, none);
    }
    match block_count(new_size) {
        Err(e) => {
            plan.fault = Some(e);
            (plan, none)
        },
        Ok(keep) => {
            plan.ops.push(FileOp::BeginOp(Reserve::Truncate));
            plan.ops.push(FileOp::OrphanAdd);
            plan.ops.push(FileOp::WriteBack);
            plan.ops.push(FileOp::RegisterOrdered);
            plan.ops.push(FileOp::TruncateChunk { size: new_size });
            assert(plan.ops@ =~= chunked_front(*inode, new_size).0);
            (plan, FreeLoop { size: new_size, keep, end: FreeEnd::Datasync })
        },
    }
}

/// The steps that finish an interrupted shrink.
pub open spec fn retruncate_steps(inode: Inode, target: u64, journaled: bool) -> (
    Seq<FileOp>,
    Option<Error>,
) {
    let clear = seq![FileOp::ClearDeleted];
    if blocks_for(target) > u32::MAX {
        (clear, Some(Error::BlockIndexTooWide))
    } else if !(inode.payload is DataBacked) {
        (clear, Some(Error::NoBlockManager))
    } else if journaled {
        (
            clear + seq![
                FileOp::BeginOp(Reserve::Truncate),
                FileOp::TruncateChunk { size: target },
            ],
            None,
        )
    } else {
        (
            clear + seq![
                FileOp::BeginOp(Reserve::Truncate),
                FileOp::Truncate { size: target },
            ] + last_steps(FreeEnd::Datasync),
            None,
        )
    }
}

/// Whether an inode is to be freed: it has no links, and was not freed before.
pub open spec fn reclaim_due(inode: Inode, allocated: bool) -> bool {
    inode.desc.link_count == 0 && allocated
}

/// Whether an inode is allocated after steps.
pub open spec fn allocated_after(allocated: bool, ops: Seq<FileOp>) -> bool {
    allocated && forall|i: int| 0 <= i < ops.len() ==> #[trigger] ops[i] != FileOp::FreeInode
}

/// The steps that free a deleted inode.
pub open spec fn reclaim_steps(inode: Inode, journaled: bool, sectors: u64) -> Seq<FileOp> {
    let backed = inode.payload is DataBacked;
    seq![FileOp::BeginOp(Reserve::Reclaim), FileOp::OrphanAddIfAbsent] + (if backed {
        seq![FileOp::ResizeCache(cache_resize(0, inode.desc.size))]
    } else {
        seq![]
    }) + seq![FileOp::SetDeleted, FileOp::SetSize { size: 0 }] + (if !backed || sectors == 0 {
        last_steps(FreeEnd::FreeInode)
    } else if journaled {
        seq![FileOp::TruncateChunk { size: 0 }]
    } else {
        seq![FileOp::Truncate { size: 0 }] + last_steps(FreeEnd::FreeInode)
    })
}

/// What holds between two steps of freeing blocks.
#[derive(Clone, Copy, Debug, PartialEq, Eq, Structural)]
pub struct Guard {
    /// The inode is on the orphan list.
    pub listed: bool,
    /// Blocks were freed in this transaction, and the inode was not written
    /// back since.
    pub pending: bool,
}

/// The guard after a step, if the step is safe: blocks are freed only while the
/// inode is on the orphan list; a transaction is left only once the inode was
/// written back and while it is on the list; and the end comes only once the
/// inode was written back and is off the list.
pub open spec fn guard_step(guard: Guard, op: FileOp) -> Option<Guard> {
    match op {
        FileOp::TruncateChunk { .. } | FileOp::Truncate { .. } => if guard.listed {
            Some(Guard { pending: true, ..guard })
        } else {
            None
        },
        FileOp::WriteBack => Some(Guard { pending: false, ..guard }),
        FileOp::Restart { .. } => if guard.listed && !guard.pending {
            Some(guard)
        } else {
            None
        },
        FileOp::OrphanAdd | FileOp::OrphanAddIfAbsent => Some(Guard { listed: true, ..guard }),
        FileOp::OrphanDel => Some(Guard { listed: false, ..guard }),
        FileOp::StampDatasync | FileOp::FreeInode => if guard.listed || guard.pending {
            None
        } else {
            Some(guard)
        },
        _ => Some(guard),
    }
}

/// The guard after steps, if all of them are safe.
pub open spec fn guard_after(guard: Guard, ops: Seq<FileOp>) -> Option<Guard>
    decreases ops.len(),
{
    if ops.len() == 0 {
        Some(guard)
    } else {
        match guard_after(guard, ops.drop_last()) {
            Some(before) => guard_step(before, ops.last()),
            None => None,
        }
    }
}

proof fn lemma_guard_concat(guard: Guard, first: Seq<FileOp>, rest: Seq<FileOp>)
    requires
        guard_after(guard, first) is Some,
    ensures
        guard_after(guard, first + rest) == guard_after(guard_after(guard, first)->0, rest),
    decreases rest.len(),
{
    if rest.len() == 0 {
        assert(first + rest =~= first);
    } else {
        assert((first + rest).drop_last() =~= first + rest.drop_last());
        lemma_guard_concat(guard, first, rest.drop_last());
    }
}

/// All steps of a run that starts with `front` and frees `chunks`.
pub open spec fn free_run(front: Seq<FileOp>, free: FreeLoop, chunks: Seq<FreedChunk>) -> Seq<
    FileOp,
>
    decreases chunks.len(),
{
    if chunks.len() == 0 {
        front
    } else {
        free_run(front, free, chunks.drop_last()) + steps_after_chunk(free, chunks.last())
    }
}

/// Whether all chunks but the last leave something to free.
pub open spec fn goes_on(free: FreeLoop, chunks: Seq<FreedChunk>) -> bool {
    forall|i: int| 0 <= i < chunks.len() - 1 ==> (#[trigger] chunks[i]).reached > free.keep
}

/// Whether the last chunk leaves nothing to free.
pub open spec fn finished(free: FreeLoop, chunks: Seq<FreedChunk>) -> bool {
    chunks.len() > 0 && chunks.last().reached <= free.keep
}

proof fn lemma_guard_short(guard: Guard, a: FileOp, b: FileOp, c: FileOp)
    ensures
        guard_after(guard, seq![a]) == guard_step(guard, a),
        guard_step(guard, a) matches Some(g) ==> guard_after(guard, seq![a, b]) == guard_step(g, b),
        guard_step(guard, a) matches Some(g) ==> (guard_step(g, b) matches Some(h) ==> guard_after(
            guard,
            seq![a, b, c],
        ) == guard_step(h, c)),
{
    reveal_with_fuel(guard_after, 4);
    assert(seq![a, b, c].drop_last() =~= seq![a, b]);
    assert(seq![a, b].drop_last() =~= seq![a]);
    assert(seq![a].drop_last() =~= seq![]);
}

proof fn lemma_run_is_guarded(
    guard: Guard,
    front: Seq<FileOp>,
    free: FreeLoop,
    chunks: Seq<FreedChunk>,
)
    requires
        guard_after(guard, front) == Some(Guard { listed: true, pending: true }),
        goes_on(free, chunks),
    ensures
        guard_after(guard, free_run(front, free, chunks)) == Some(
            if finished(free, chunks) {
                Guard { listed: false, pending: false }
            } else {
                Guard { listed: true, pending: true }
            },
        ),
    decreases chunks.len(),
{
    if chunks.len() > 0 {
        let init = chunks.drop_last();
        assert(goes_on(free, init)) by {
            assert forall|i: int| 0 <= i < init.len() - 1 implies (#[trigger] init[i]).reached
                > free.keep by {
                assert(init[i] == chunks[i]);
            }
        }
        assert(!finished(free, init)) by {
            if init.len() > 0 {
                assert(init.last() == chunks[init.len() - 1]);
            }
        }
        lemma_run_is_guarded(guard, front, free, init);
        let steps = steps_after_chunk(free, chunks.last());
        lemma_guard_concat(guard, free_run(front, free, init), steps);
        lemma_guard_short(Guard { listed: true, pending: true }, steps[0], steps[1], steps[2]);
        assert(steps =~= seq![steps[0], steps[1], steps[2]]);
    }
}

/// A shrink over many transactions is safe at every step: it frees blocks only
/// while the inode is on the orphan list with its new size, it writes the inode
/// back in each transaction that frees some, and it ends with the inode off the
/// list. The inode stays alive: its time of deletion is as it was.
pub proof fn chunked_shrink_is_guarded(
    inode: Inode,
    new_size: u64,
    chunks: Seq<FreedChunk>,
    now: Duration,
    tid: Option<Tid>,
    seen: Seq<ExtentSnapshot>,
)
    requires
        chunked_front(inode, new_size).1 is None,
        goes_on(
            FreeLoop {
                size: new_size,
                keep: blocks_for(new_size) as u32,
                end: FreeEnd::Datasync,
            },
            chunks,
        ),
    ensures
        ({
            let free = FreeLoop {
                size: new_size,
                keep: blocks_for(new_size) as u32,
                end: FreeEnd::Datasync,
            };
            let front = chunked_front(inode, new_size).0;
            let fresh = Guard { listed: false, pending: false };
            &&& guard_after(fresh, free_run(front, free, chunks)) == Some(
                if finished(free, chunks) {
                    fresh
                } else {
                    Guard { listed: true, pending: true }
                },
            )
            &&& after_ops(inode, front.take(6), now, tid, seen).desc.size == new_size
            &&& after_ops(inode, free_run(front, free, chunks), now, tid, seen).desc.size
                == new_size
            &&& after_ops(inode, free_run(front, free, chunks), now, tid, seen).desc.dtime
                == inode.desc.dtime
        }),
{
    let free = FreeLoop {
        size: new_size,
        keep: blocks_for(new_size) as u32,
        end: FreeEnd::Datasync,
    };
    let front = chunked_front(inode, new_size).0;
    let fresh = Guard { listed: false, pending: false };
    assert(guard_after(fresh, front) == Some(Guard { listed: true, pending: true })) by {
        reveal_with_fuel(guard_after, 9);
        assert(front.len() == 8);
        assert(front.drop_last() =~= front.take(7));
        assert(front.take(7).drop_last() =~= front.take(6));
        assert(front.take(6).drop_last() =~= front.take(5));
        assert(front.take(5).drop_last() =~= front.take(4));
        assert(front.take(4).drop_last() =~= front.take(3));
        assert(front.take(3).drop_last() =~= front.take(2));
        assert(front.take(2).drop_last() =~= front.take(1));
        assert(front.take(1).drop_last() =~= seq![]);
    }
    lemma_run_is_guarded(fresh, front, free, chunks);
    let early = front.take(6);
    assert(early[2] == FileOp::SetSize { size: new_size });
    assert forall|i: int| 0 <= i < early.len() implies !(#[trigger] early[i] is SetSize)
        || early[i] == (FileOp::SetSize { size: new_size }) by {
        assert(early[i] == front[i]);
    }
    lemma_size_after(inode, early, now, tid, new_size, seen);
    assert(front[2] == FileOp::SetSize { size: new_size });
    lemma_run_sets_one_size(front, free, chunks, new_size);
    assert(free_run(front, free, chunks)[2] == front[2]);
    lemma_size_after(inode, free_run(front, free, chunks), now, tid, new_size, seen);
    lemma_run_keeps_dtime(inode, front, free, chunks, now, tid, seen);
    assert(Seq::<FileOp>::empty() + front =~= front);
    lemma_dtime_kept(inode, Seq::empty(), front, now, tid, seen);
}

proof fn lemma_run_sets_one_size(
    front: Seq<FileOp>,
    free: FreeLoop,
    chunks: Seq<FreedChunk>,
    size: u64,
)
    requires
        forall|i: int|
            0 <= i < front.len() ==> !(#[trigger] front[i] is SetSize) || front[i] == (
            FileOp::SetSize { size }),
    ensures
        forall|i: int|
            0 <= i < free_run(front, free, chunks).len() ==> !(#[trigger] free_run(
                front,
                free,
                chunks,
            )[i] is SetSize) || free_run(front, free, chunks)[i] == (FileOp::SetSize { size }),
        forall|i: int|
            0 <= i < front.len() ==> #[trigger] free_run(front, free, chunks)[i] == front[i],
        free_run(front, free, chunks).len() >= front.len(),
    decreases chunks.len(),
{
    if chunks.len() > 0 {
        lemma_run_sets_one_size(front, free, chunks.drop_last(), size);
    }
}

/// Finishing an interrupted shrink is safe at every step, from the inode being
/// on the orphan list to its being off it, and leaves the inode alive.
pub proof fn retruncation_is_guarded(
    inode: Inode,
    target: u64,
    journaled: bool,
    chunks: Seq<FreedChunk>,
    now: Duration,
    tid: Option<Tid>,
    seen: Seq<ExtentSnapshot>,
)
    requires
        retruncate_steps(inode, target, journaled).1 is None,
        journaled || chunks.len() == 0,
        goes_on(
            FreeLoop { size: target, keep: blocks_for(target) as u32, end: FreeEnd::Datasync },
            chunks,
        ),
    ensures
        ({
            let free = FreeLoop {
                size: target,
                keep: blocks_for(target) as u32,
                end: FreeEnd::Datasync,
            };
            let front = retruncate_steps(inode, target, journaled).0;
            &&& guard_after(
                Guard { listed: true, pending: false },
                free_run(front, free, chunks),
            ) == Some(
                if !journaled || finished(free, chunks) {
                    Guard { listed: false, pending: false }
                } else {
                    Guard { listed: true, pending: true }
                },
            )
            &&& after_ops(inode, free_run(front, free, chunks), now, tid, seen).desc.dtime
                == Dtime::Time(Duration { secs: 0, nanos: 0 })
        }),
{
    let free = FreeLoop { size: target, keep: blocks_for(target) as u32, end: FreeEnd::Datasync };
    let front = retruncate_steps(inode, target, journaled).0;
    let start = Guard { listed: true, pending: false };
    reveal_with_fuel(guard_after, 7);
    if journaled {
        assert(front =~= seq![front[0], front[1], front[2]]);
        lemma_guard_short(start, front[0], front[1], front[2]);
        lemma_run_is_guarded(start, front, free, chunks);
    } else {
        assert(front.drop_last() =~= front.take(5));
        assert(front.take(5).drop_last() =~= front.take(4));
        assert(front.take(4).drop_last() =~= front.take(3));
        assert(front.take(3).drop_last() =~= front.take(2));
        assert(front.take(2).drop_last() =~= front.take(1));
        assert(front.take(1).drop_last() =~= seq![]);
    }
    lemma_dtime_after(inode, front, now, tid, seen);
    lemma_run_keeps_dtime(inode, front, free, chunks, now, tid, seen);
}

proof fn lemma_dtime_after(
    inode: Inode,
    ops: Seq<FileOp>,
    now: Duration,
    tid: Option<Tid>,
    seen: Seq<ExtentSnapshot>,
)
    requires
        ops.len() > 0,
        ops[0] == FileOp::ClearDeleted,
        forall|i: int| 0 <= i < ops.len() ==> !(#[trigger] ops[i] is SetDeleted),
    ensures
        after_ops(inode, ops, now, tid, seen).desc.dtime == Dtime::Time(
            Duration { secs: 0, nanos: 0 },
        ),
    decreases ops.len(),
{
    reveal_with_fuel(after_ops, 2);
    if ops.len() > 1 {
        let init = ops.drop_last();
        assert forall|i: int| 0 <= i < init.len() implies !(#[trigger] init[i] is SetDeleted) by {
            assert(init[i] == ops[i]);
        }
        lemma_dtime_after(inode, init, now, tid, seen);
    }
}

proof fn lemma_run_keeps_dtime(
    inode: Inode,
    front: Seq<FileOp>,
    free: FreeLoop,
    chunks: Seq<FreedChunk>,
    now: Duration,
    tid: Option<Tid>,
    seen: Seq<ExtentSnapshot>,
)
    ensures
        after_ops(inode, free_run(front, free, chunks), now, tid, seen).desc.dtime == after_ops(
            inode,
            front,
            now,
            tid,
            seen,
        ).desc.dtime,
    decreases chunks.len(),
{
    if chunks.len() > 0 {
        lemma_run_keeps_dtime(inode, front, free, chunks.drop_last(), now, tid, seen);
        let run = free_run(front, free, chunks.drop_last());
        let steps = steps_after_chunk(free, chunks.last());
        lemma_dtime_kept(inode, run, steps, now, tid, seen);
    }
}

proof fn lemma_dtime_kept(
    inode: Inode,
    ops: Seq<FileOp>,
    more: Seq<FileOp>,
    now: Duration,
    tid: Option<Tid>,
    seen: Seq<ExtentSnapshot>,
)
    requires
        forall|i: int|
            0 <= i < more.len() ==> !(#[trigger] more[i] is SetDeleted) && !(
            more[i] is ClearDeleted),
    ensures
        after_ops(inode, ops + more, now, tid, seen).desc.dtime == after_ops(
            inode,
            ops,
            now,
            tid,
            seen,
        ).desc.dtime,
    decreases more.len(),
{
    if more.len() == 0 {
        assert(ops + more =~= ops);
    } else {
        let init = more.drop_last();
        assert((ops + more).drop_last() =~= ops + init);
        assert((ops + more).last() == more[more.len() - 1]);
        assert forall|i: int| 0 <= i < init.len() implies !(#[trigger] init[i] is SetDeleted) && !(
        init[i] is ClearDeleted) by {
            assert(init[i] == more[i]);
        }
        lemma_dtime_kept(inode, ops, init, now, tid, seen);
    }
}

/// Freeing a deleted inode is safe at every step: the inode is on the orphan
/// list while its blocks are freed, and it is freed itself only when it is off
/// the list and all is written back.
pub proof fn reclaim_is_guarded(
    inode: Inode,
    journaled: bool,
    sectors: u64,
    chunks: Seq<FreedChunk>,
)
    requires
        journaled && inode.payload is DataBacked && sectors > 0 || chunks.len() == 0,
        goes_on(FreeLoop { size: 0, keep: 0, end: FreeEnd::FreeInode }, chunks),
    ensures
        ({
            let free = FreeLoop { size: 0, keep: 0, end: FreeEnd::FreeInode };
            let chunked = journaled && inode.payload is DataBacked && sectors > 0;
            guard_after(
                Guard { listed: false, pending: false },
                free_run(reclaim_steps(inode, journaled, sectors), free, chunks),
            ) == Some(
                if !chunked || finished(free, chunks) {
                    Guard { listed: false, pending: false }
                } else {
                    Guard { listed: true, pending: true }
                },
            )
        }),
{
    let free = FreeLoop { size: 0, keep: 0, end: FreeEnd::FreeInode };
    let fresh = Guard { listed: false, pending: false };
    let front = reclaim_steps(inode, journaled, sectors);
    let chunked = journaled && inode.payload is DataBacked && sectors > 0;
    let backed = inode.payload is DataBacked;
    let head = seq![FileOp::BeginOp(Reserve::Reclaim), FileOp::OrphanAddIfAbsent];
    let cache = if backed {
        seq![FileOp::ResizeCache(cache_resize(0, inode.desc.size))]
    } else {
        seq![]
    };
    let marks = seq![FileOp::SetDeleted, FileOp::SetSize { size: 0 }];
    let listed = Guard { listed: true, pending: false };
    let freed = Guard { listed: true, pending: true };
    let last = last_steps(FreeEnd::FreeInode);
    lemma_guard_short(fresh, head[0], head[1], head[1]);
    lemma_guard_short(listed, cache[0], cache[0], cache[0]);
    lemma_guard_short(listed, marks[0], marks[1], marks[1]);
    lemma_guard_short(listed, last[0], last[1], last[2]);
    lemma_guard_short(freed, last[0], last[1], last[2]);
    lemma_guard_short(
        listed,
        FileOp::TruncateChunk { size: 0 },
        FileOp::WriteBack,
        FileOp::WriteBack,
    );
    lemma_guard_short(
        listed,
        FileOp::Truncate { size: 0 },
        FileOp::WriteBack,
        FileOp::WriteBack,
    );
    assert(guard_after(listed, Seq::<FileOp>::empty()) == Some(listed));
    lemma_guard_concat(fresh, head, cache);
    lemma_guard_concat(fresh, head + cache, marks);
    if chunked {
        let tail = seq![FileOp::TruncateChunk { size: 0 }];
        lemma_guard_concat(fresh, head + cache + marks, tail);
        lemma_run_is_guarded(fresh, front, free, chunks);
    } else if backed && sectors > 0 {
        let freeing = seq![FileOp::Truncate { size: 0 }];
        lemma_guard_concat(fresh, head + cache + marks, freeing);
        lemma_guard_concat(fresh, head + cache + marks + freeing, last);
        assert(front =~= head + cache + marks + freeing + last);
    } else {
        lemma_guard_concat(fresh, head + cache + marks, last);
    }
}

proof fn lemma_links_after(
    inode: Inode,
    ops: Seq<FileOp>,
    now: Duration,
    tid: Option<Tid>,
    seen: Seq<ExtentSnapshot>,
)
    ensures
        after_ops(inode, ops, now, tid, seen).desc.link_count == inode.desc.link_count,
    decreases ops.len(),
{
    if ops.len() > 0 {
        lemma_links_after(inode, ops.drop_last(), now, tid, seen);
    }
}

/// An inode is freed once: when freeing it came to its end, it is free and off the
/// orphan list, its size is zero, its time of deletion is now, and there is nothing
/// more to do for it.
pub proof fn reclaim_happens_once(
    inode: Inode,
    journaled: bool,
    sectors: u64,
    chunks: Seq<FreedChunk>,
    now: Duration,
    tid: Option<Tid>,
    seen: Seq<ExtentSnapshot>,
)
    requires
        reclaim_due(inode, true),
        goes_on(FreeLoop { size: 0, keep: 0, end: FreeEnd::FreeInode }, chunks),
        if journaled && inode.payload is DataBacked && sectors > 0 {
            finished(FreeLoop { size: 0, keep: 0, end: FreeEnd::FreeInode }, chunks)
        } else {
            chunks.len() == 0
        },
    ensures
        ({
            let free = FreeLoop { size: 0, keep: 0, end: FreeEnd::FreeInode };
            let run = free_run(reclaim_steps(inode, journaled, sectors), free, chunks);
            let after = after_ops(inode, run, now, tid, seen);
            &&& after.desc.link_count == 0
            &&& after.desc.size == 0
            &&& after.desc.dtime == Dtime::Time(now)
            &&& guard_after(Guard { listed: false, pending: false }, run) == Some(
                Guard { listed: false, pending: false },
            )
            &&& !allocated_after(true, run)
            &&& !reclaim_due(after, allocated_after(true, run))
        }),
{
    let free = FreeLoop { size: 0, keep: 0, end: FreeEnd::FreeInode };
    let front = reclaim_steps(inode, journaled, sectors);
    let run = free_run(front, free, chunks);
    reclaim_is_guarded(inode, journaled, sectors, chunks);
    lemma_links_after(inode, run, now, tid, seen);
    let at: int = if inode.payload is DataBacked {
        3
    } else {
        2
    };
    assert(front[at] == FileOp::SetDeleted);
    assert(front[at + 1] == FileOp::SetSize { size: 0 });
    lemma_run_sets_one_size(front, free, chunks, 0);
    assert(run[at + 1] == front[at + 1]);
    lemma_size_after(inode, run, now, tid, 0, seen);
    lemma_run_keeps_dtime(inode, front, free, chunks, now, tid, seen);
    assert(front =~= front.take(at + 1) + front.skip(at + 1));
    lemma_dtime_kept(inode, front.take(at + 1), front.skip(at + 1), now, tid, seen);
    assert(front.take(at + 1).last() == FileOp::SetDeleted);
    assert(run[run.len() - 1] == FileOp::FreeInode);
}

/// A change of the size that meets no fault has the size that was asked for, and
/// one that is refused for its size changes nothing.
pub proof fn resize_reaches_the_size(
    inode: Inode,
    new_size: u64,
    journaled: bool,
    max_file_size: u64,
    now: Duration,
    tid: Option<Tid>,
    seen: Seq<ExtentSnapshot>,
)
    ensures
        ({
            let (ops, fault) = whole_resize(inode, new_size, journaled, max_file_size);
            &&& fault is None ==> after_ops(inode, ops, now, tid, seen).desc.size == new_size
            &&& fault == Some(Error::SizeLimit) ==> after_ops(inode, ops, now, tid, seen) == inode
        }),
{
    let (ops, fault) = whole_resize(inode, new_size, journaled, max_file_size);
    reveal_with_fuel(after_ops, 2);
    assert(seq![FileOp::BeginOp(Reserve::Truncate)] + Seq::<FileOp>::empty() =~= seq![
        FileOp::BeginOp(Reserve::Truncate),
    ]);
    if fault is None {
        if new_size < inode.desc.size {
            assert(ops[3] == FileOp::SetSize { size: new_size });
        } else if new_size > inode.desc.size {
            assert(ops[1] == FileOp::SetSize { size: new_size });
        }
        lemma_size_after(inode, ops, now, tid, new_size, seen);
    }
}

} // verus!
