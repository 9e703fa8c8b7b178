//! Reserving space for files, and punching holes into them.

use vstd::prelude::*;

use crate::error::Error;
use crate::inode::desc::InodeType;
use crate::inode::node::{size_limit, ExtentSnapshot, Inode, PAGE_SIZE};
use crate::inode::ops::{
    after_ops, cache_resize, lemma_seam_concat, lemma_seam_short, lemma_size_after, page_end,
    seam_after, CacheResize, FileOp, Reserve,
};
use crate::inode::resize::{block_start, blocks_for, Plan};
use crate::inode::time::Duration;
use crate::inode::write::{block_range, mapped_some, range_too_wide, request_steps, HoleFill};
use crate::journal::tid::Tid;

verus! {

/// What is done to a range of a file.
#[derive(Clone, Copy, Debug, PartialEq, Eq, Structural)]
pub enum FallocMode {
    Allocate,
    AllocateKeepSize,
    AllocateUnshareRange,
    PunchHoleKeepSize,
    ZeroRange,
    ZeroRangeKeepSize,
    CollapseRange,
    InsertRange,
}

/// A change of the space of a file.
pub enum FallocPlan {
    /// There is nothing to do.
    Nothing,
    /// Reserving space: the steps up to the first chunk, and how they go on.
    Preallocate(Vec<FileOp>, PreallocLoop),
    /// Punching a hole: the steps up to the first chunk, and how they go on.
    Punch(Plan, PunchLoop),
}

/// The reserving of space, chunk by chunk.
#[derive(Clone, Copy, Debug, PartialEq, Eq, Structural)]
pub struct PreallocLoop {
    /// The first block that is not mapped yet.
    pub cursor: u32,
    /// The first block behind the range.
    pub stop: u32,
    /// The size that the file gets in the end, if it grows.
    pub grow_to: Option<u64>,
    /// The room of a transaction, if there is a journal.
    pub max_credits: Option<usize>,
}

/// The freeing of the blocks of a hole, chunk by chunk.
#[derive(Clone, Copy, Debug, PartialEq, Eq, Structural)]
pub struct PunchLoop {
    pub first: u32,
    pub stop: u32,
}

/// What was left after a chunk of a hole: whether there is more to free, and
/// the room that it needs.
#[derive(Clone, Copy, Debug, PartialEq, Eq, Structural)]
pub struct PunchedChunk {
    pub more: bool,
    pub next_bound: usize,
}

/// The size that a file grows to when space up to `end` is reserved.
pub open spec fn grown_to(size: u64, end: u64, grow_size: bool) -> Option<u64> {
    if grow_size && end > size {
        Some(end)
    } else {
        None
    }
}

/// Why space cannot be reserved.
pub open spec fn preallocate_fault(inode: Inode, offset: u64, len: u64, max_file_size: u64) -> Option<
    Error,
> {
    if offset + len > u64::MAX {
        Some(Error::RangeOverflow)
    } else if offset + len > size_limit(inode.desc.type_, max_file_size) {
        Some(Error::SizeLimit)
    } else if range_too_wide(offset, (offset + len) as u64) {
        Some(Error::BlockIndexTooWide)
    } else {
        None
    }
}

/// The steps up to the first chunk. The page cache grows at once, the size only
/// in the end.
pub open spec fn preallocate_front(inode: Inode, offset: u64, end: u64, grow_size: bool) -> Seq<
    FileOp,
> {
    (if grown_to(inode.desc.size, end, grow_size) is Some {
        seq![FileOp::ResizeCache(cache_resize(end, inode.desc.size))]
    } else {
        seq![]
    }) + seq![FileOp::BeginOp(Reserve::Write)] + request_steps(
        (offset / PAGE_SIZE) as u32,
        blocks_for(end) as u32,
    )
}

/// The steps after the last chunk.
pub open spec fn preallocate_end(grow_to: Option<u64>) -> Seq<FileOp> {
    (match grow_to {
        Some(size) => seq![FileOp::SetSize { size }],
        None => seq![],
    }) + seq![FileOp::StampTimes, FileOp::WriteBack, FileOp::StampDatasync]
}

/// What follows in a reservation after holes were filled.
pub open spec fn prealloc_next(before: PreallocLoop, fill: HoleFill) -> Result<
    (PreallocLoop, Seq<FileOp>),
    Error,
> {
    match fill {
        HoleFill::Filled => Ok(
            (
                PreallocLoop { cursor: before.stop, ..before },
                seq![FileOp::WriteBack] + preallocate_end(before.grow_to),
            ),
        ),
        HoleFill::Stopped { reached, need } => if reached > before.cursor {
            Ok(
                (
                    PreallocLoop { cursor: reached, ..before },
                    seq![FileOp::WriteBack, FileOp::Restart { credits: need }] + (if reached
                        < before.stop {
                        request_steps(reached, before.stop)
                    } else {
                        preallocate_end(before.grow_to)
                    }),
                ),
            )
        } else if before.max_credits matches Some(max) && need > max {
            Err(Error::InsertExceedsTransaction)
        } else {
            Ok(
                (
                    before,
                    seq![FileOp::Restart { credits: need }] + request_steps(
                        before.cursor,
                        before.stop,
                    ),
                ),
            )
        },
    }
}

impl PreallocLoop {
    /// Whether all is mapped.
    pub fn is_done(&self) -> (r: bool)
        ensures
            r == (self.cursor >= self.stop),
    {
        self.cursor >= self.stop
    }

    /// The steps that ask for the next blocks.
    fn request(&self) -> (ops: Vec<FileOp>)
        ensures
            ops@ == request_steps(self.cursor, self.stop),
    {
        vec![
            FileOp::EnsureCredits(Reserve::Write),
            FileOp::AllocateChunk { first: self.cursor, stop: self.stop },
        ]
    }

    /// The steps after the last chunk.
    fn finish(&self) -> (ops: Vec<FileOp>)
        ensures
            ops@ == preallocate_end(self.grow_to),
    {
        let mut ops: Vec<FileOp> = Vec::new();
        match self.grow_to {
            Some(size) => {
                ops.push(FileOp::SetSize { size });
            },
            None => {},
        }
        ops.push(FileOp::StampTimes);
        ops.push(FileOp::WriteBack);
        ops.push(FileOp::StampDatasync);
        assert(ops@ =~= preallocate_end(self.grow_to));
        ops
    }

    /// Goes on after holes were filled. What was mapped is written back before a
    /// new transaction is joined. If nothing fit, a transaction with the room
    /// that is needed is tried, unless none has that much.
    pub fn on_fill(&mut self, fill: HoleFill) -> (r: Result<Vec<FileOp>, Error>)
        requires
            old(self).cursor < old(self).stop,
        ensures
            match prealloc_next(*old(self), fill) {
                Err(e) => {
                    &&& *final(self) == *old(self)
                    &&& r == Err::<Vec<FileOp>, Error>(e)
                },
                Ok((next, steps)) => {
                    &&& *final(self) == next
                    &&& r matches Ok(ops) && ops@ == steps
                },
            },
    {
        match fill {
            HoleFill::Filled => {
                self.cursor = self.stop;
                let mut ops: Vec<FileOp> = vec![FileOp::WriteBack];
                let mut end = self.finish();
                ops.append(&mut end);
                Ok(ops)
            },
            HoleFill::Stopped { reached, need } => {
                if reached > self.cursor {
                    self.cursor = reached;
                    let mut ops: Vec<FileOp> = vec![
                        FileOp::WriteBack,
                        FileOp::Restart { credits: need },
                    ];
                    let mut rest = if reached < self.stop {
                        self.request()
                    } else {
                        self.finish()
                    };
                    ops.append(&mut rest);
                    Ok(ops)
                } else {
                    match self.max_credits {
                        Some(max) => {
                            if need > max {
                                return Err(Error::InsertExceedsTransaction);
                            }
                        },
                        None => {},
                    }
                    let mut ops: Vec<FileOp> = vec![FileOp::Restart { credits: need }];
                    let mut request = self.request();
                    ops.append(&mut request);
                    Ok(ops)
                }
            },
        }
    }
}

/// The end of a hole of `len` bytes: no further than the file.
pub open spec fn punch_end(size: u64, offset: u64, len: u64) -> u64 {
    if offset + len < size {
        (offset + len) as u64
    } else {
        size
    }
}

/// The first block boundary at or after `offset`.
pub open spec fn inner_start(offset: u64) -> int {
    blocks_for(offset) * PAGE_SIZE
}

/// The ranges of a hole that lie in blocks it does not cover, and are filled
/// with zeros. Each lies in one block.
pub open spec fn partial_ranges(offset: u64, end: u64) -> Seq<(int, int)> {
    let start = inner_start(offset);
    let stop = block_start(end) as int;
    if offset / PAGE_SIZE == (end - 1) / PAGE_SIZE as int {
        if offset < start || stop < end {
            seq![(offset as int, end as int)]
        } else {
            seq![]
        }
    } else {
        (if offset < start {
            seq![(offset as int, start)]
        } else {
            seq![]
        }) + (if stop < end {
            seq![(stop, end as int)]
        } else {
            seq![]
        })
    }
}

/// The step that fills a range with zeros.
pub open spec fn zero_step(range: (int, int)) -> FileOp {
    FileOp::ZeroIfMapped {
        block: (range.0 / PAGE_SIZE as int) as u32,
        start: range.0 as u64,
        end: range.1 as u64,
    }
}

/// Whether a range starts in a block that has no 32-bit index.
pub open spec fn starts_too_wide(range: (int, int)) -> bool {
    range.0 / PAGE_SIZE as int > u32::MAX
}

/// The steps that fill ranges with zeros, up to the first that starts in a block
/// without a 32-bit index.
pub open spec fn zero_steps(ranges: Seq<(int, int)>) -> (Seq<FileOp>, Option<Error>)
    decreases ranges.len(),
{
    if ranges.len() == 0 {
        (seq![], None)
    } else {
        let (ops, fault) = zero_steps(ranges.drop_last());
        if fault is Some {
            (ops, fault)
        } else if starts_too_wide(ranges.last()) {
            (ops, Some(Error::BlockIndexTooWide))
        } else {
            (ops.push(zero_step(ranges.last())), None)
        }
    }
}

/// Whether a hole covers whole blocks.
pub open spec fn has_full_blocks(offset: u64, end: u64) -> bool {
    inner_start(offset) < block_start(end)
}

/// The steps up to the first chunk of a hole.
pub open spec fn punch_front(offset: u64, end: u64, journaled: bool) -> (
    Seq<FileOp>,
    Option<Error>,
) {
    let (zeroes, fault) = zero_steps(partial_ranges(offset, end));
    let first = inner_start(offset) / PAGE_SIZE as int;
    let stop = end / PAGE_SIZE;
    let ordered = if journaled {
        seq![FileOp::RegisterOrdered]
    } else {
        seq![]
    };
    if fault is Some {
        (zeroes, fault)
    } else if !has_full_blocks(offset, end) {
        (
            zeroes + seq![FileOp::StampTimes, FileOp::BeginOp(Reserve::Truncate)] + ordered
                + punch_last(),
            None,
        )
    } else if stop > u32::MAX {
        (zeroes, Some(Error::BlockIndexTooWide))
    } else {
        (
            zeroes + seq![
                FileOp::InvalidatePages {
                    start: inner_start(offset) as u64,
                    end: block_start(end),
                },
                FileOp::StampTimes,
                FileOp::BeginOp(Reserve::Truncate),
            ] + ordered + (if journaled {
                seq![FileOp::PunchChunk { first: first as u32, stop: stop as u32 }]
            } else {
                seq![FileOp::PunchRange { first: first as u32, stop: stop as u32 }] + punch_last()
            }),
            None,
        )
    }
}

/// The steps that end a hole.
pub open spec fn punch_last() -> Seq<FileOp> {
    seq![FileOp::WriteBack, FileOp::StampDatasync]
}

/// The steps after a chunk of a hole: what it freed is written back in the same
/// transaction.
pub open spec fn steps_after_punch(punch: PunchLoop, chunk: PunchedChunk) -> Seq<FileOp> {
    if chunk.more {
        seq![
            FileOp::WriteBack,
            FileOp::Restart { credits: chunk.next_bound },
            FileOp::PunchChunk { first: punch.first, stop: punch.stop },
        ]
    } else {
        seq![FileOp::WriteBack] + punch_last()
    }
}

impl PunchLoop {
    /// The steps after a chunk was freed. They end with the next chunk, unless
    /// this was the last.
    pub fn on_chunk(&self, chunk: PunchedChunk) -> (ops: Vec<FileOp>)
        ensures
            ops@ == steps_after_punch(*self, chunk),
    {
        if chunk.more {
            vec![
                FileOp::WriteBack,
                FileOp::Restart { credits: chunk.next_bound },
                FileOp::PunchChunk { first: self.first, stop: self.stop },
            ]
        } else {
            let ops = vec![FileOp::WriteBack, FileOp::WriteBack, FileOp::StampDatasync];
            assert(ops@ =~= steps_after_punch(*self, chunk));
            ops
        }
    }
}

/// Adds the step that fills a range of one block with zeros.
fn zero_partial_block(ops: &mut Vec<FileOp>, start: u64, end: u64) -> (fault: Option<Error>)
    ensures
        if starts_too_wide((start as int, end as int)) {
            &&& fault == Some(Error::BlockIndexTooWide)
            &&& final(ops)@ == old(ops)@
        } else {
            &&& fault is None
            &&& final(ops)@ == old(ops)@.push(zero_step((start as int, end as int)))
        },
{
    let block: u64 = start / PAGE_SIZE;
    if block > u32::MAX as u64 {
        return Some(Error::BlockIndexTooWide);
    }
    ops.push(FileOp::ZeroIfMapped { block: block as u32, start, end });
    None
}

/// The steps that fill the partial blocks of a hole with zeros.
fn zero_edges(offset: u64, end: u64, start: u64, stop: u64) -> (plan: Plan)
    requires
        offset < end,
        start == inner_start(offset),
        stop == block_start(end),
    ensures
        (plan.ops@, plan.fault) == zero_steps(partial_ranges(offset, end)),
{
    let mut ops: Vec<FileOp> = Vec::new();
    let ghost ranges = partial_ranges(offset, end);
    proof {
        reveal_with_fuel(zero_steps, 3);
        assert(ranges.len() > 0 ==> ranges.drop_last() =~= ranges.take(ranges.len() - 1));
        assert(ranges.take(0) =~= seq![]);
        assert(ranges.len() == 2 ==> ranges.take(1).drop_last() =~= seq![]);
        assert(ranges.len() == 1 ==> ranges.drop_last() =~= seq![]);
        assert(ops@ =~= seq![]);
    }
    if offset / PAGE_SIZE == (end - 1) / PAGE_SIZE {
        if offset < start || stop < end {
            let fault = zero_partial_block(&mut ops, offset, end);
            return Plan { ops, fault };
        }
        return Plan { ops, fault: None };
    }
    if offset < start {
        let fault = zero_partial_block(&mut ops, offset, start);
        if fault.is_some() {
            return Plan { ops, fault };
        }
    }
    if stop < end {
        let fault = zero_partial_block(&mut ops, stop, end);
        return Plan { ops, fault };
    }
    Plan { ops, fault: None }
}

/// The steps up to the first chunk of a hole.
fn punch_hole(offset: u64, end: u64, journaled: bool) -> (r: (Plan, PunchLoop))
    requires
        offset < end,
        page_end(end) <= u64::MAX,
    ensures
        (r.0.ops@, r.0.fault) == punch_front(offset, end, journaled),
        r.0.fault is None && has_full_blocks(offset, end) ==> r.1 == (PunchLoop {
            first: blocks_for(offset) as u32,
            stop: (end / PAGE_SIZE) as u32,
        }),
{
    let start: u64 = if offset % PAGE_SIZE == 0 {
        offset
    } else {
        (offset / PAGE_SIZE + 1) * PAGE_SIZE
    };
    let stop: u64 = end / PAGE_SIZE * PAGE_SIZE;
    let none = PunchLoop { first: 0, stop: 0 };
    let mut plan = zero_edges(offset, end, start, stop);
    if plan.fault.is_some() {
        return (plan, none);
    }
    let full = start < stop;
    let mut punch = none;
    if full {
        let first_block: u64 = start / PAGE_SIZE;
        let stop_block: u64 = stop / PAGE_SIZE;
        if first_block > u32::MAX as u64 || stop_block > u32::MAX as u64 {
            plan.fault = Some(Error::BlockIndexTooWide);
            return (plan, none);
        }
        punch = PunchLoop { first: first_block as u32, stop: stop_block as u32 };
        plan.ops.push(FileOp::InvalidatePages { start, end: stop });
    }
    plan.ops.push(FileOp::StampTimes);
    plan.ops.push(FileOp::BeginOp(Reserve::Truncate));
    if journaled {
        plan.ops.push(FileOp::RegisterOrdered);
    }
    if full && journaled {
        plan.ops.push(FileOp::PunchChunk { first: punch.first, stop: punch.stop });
    } else {
        if full {
            plan.ops.push(FileOp::PunchRange { first: punch.first, stop: punch.stop });
        }
        plan.ops.push(FileOp::WriteBack);
        plan.ops.push(FileOp::StampDatasync);
    }
    assert(plan.ops@ =~= punch_front(offset, end, journaled).0);
    (plan, punch)
}

impl Inode {
    /// Plans to change the space of `len` bytes at `offset`. With a journal,
    /// `max_credits` is the room of a transaction.
    pub fn fallocate(
        &self,
        mode: FallocMode,
        offset: u64,
        len: u64,
        max_credits: Option<usize>,
        max_file_size: u64,
    ) -> (r: Result<FallocPlan, Error>)
        requires
            self.wf(),
            page_end(self.desc.size) <= u64::MAX,
        ensures
            self.desc.type_ != InodeType::File ==> r == Err::<FallocPlan, Error>(
                Error::NotRegular,
            ),
            self.desc.type_ == InodeType::File && len == 0 ==> r == Ok::<FallocPlan, Error>(
                FallocPlan::Nothing,
            ),
            self.desc.type_ == InodeType::File && len > 0 ==> match mode {
                FallocMode::Allocate => self.preallocated(
                    offset,
                    len,
                    true,
                    max_credits,
                    max_file_size,
                    r,
                ),
                FallocMode::AllocateKeepSize => self.preallocated(
                    offset,
                    len,
                    false,
                    max_credits,
                    max_file_size,
                    r,
                ),
                FallocMode::PunchHoleKeepSize => self.punched(
                    offset,
                    len,
                    max_credits is Some,
                    r,
                ),
                _ => r == Err::<FallocPlan, Error>(Error::UnsupportedFallocMode),
            },
    {
        if self.desc.type_ != InodeType::File {
            return Err(Error::NotRegular);
        }
        if len == 0 {
            return Ok(FallocPlan::Nothing);
        }
        match mode {
            FallocMode::Allocate => self.preallocate(
                offset,
                len,
                true,
                max_credits,
                max_file_size,
            ),
            FallocMode::AllocateKeepSize => self.preallocate(
                offset,
                len,
                false,
                max_credits,
                max_file_size,
            ),
            FallocMode::PunchHoleKeepSize => {
                if offset >= self.desc.size {
                    return Ok(FallocPlan::Nothing);
                }
                if len > u64::MAX - offset {
                    return Err(Error::RangeOverflow);
                }
                let end: u64 = if offset + len < self.desc.size {
                    offset + len
                } else {
                    self.desc.size
                };
                let (plan, punch) = punch_hole(offset, end, max_credits.is_some());
                Ok(FallocPlan::Punch(plan, punch))
            },
            _ => Err(Error::UnsupportedFallocMode),
        }
    }

    /// `r` is the plan to reserve space.
    pub open spec fn preallocated(
        self,
        offset: u64,
        len: u64,
        grow_size: bool,
        max_credits: Option<usize>,
        max_file_size: u64,
        r: Result<FallocPlan, Error>,
    ) -> bool {
        match preallocate_fault(self, offset, len, max_file_size) {
            Some(e) => r == Err::<FallocPlan, Error>(e),
            None => {
                let end = (offset + len) as u64;
                &&& r matches Ok(FallocPlan::Preallocate(ops, going))
                &&& ops@ == preallocate_front(self, offset, end, grow_size)
                &&& going == (PreallocLoop {
                    cursor: (offset / PAGE_SIZE) as u32,
                    stop: blocks_for(end) as u32,
                    grow_to: grown_to(self.desc.size, end, grow_size),
                    max_credits,
                })
                &&& going.cursor < going.stop
            },
        }
    }

    /// `r` is the plan to punch a hole.
    pub open spec fn punched(
        self,
        offset: u64,
        len: u64,
        journaled: bool,
        r: Result<FallocPlan, Error>,
    ) -> bool {
        if offset >= self.desc.size {
            r == Ok::<FallocPlan, Error>(FallocPlan::Nothing)
        } else if offset + len > u64::MAX {
            r == Err::<FallocPlan, Error>(Error::RangeOverflow)
        } else {
            let end = punch_end(self.desc.size, offset, len);
            &&& r matches Ok(FallocPlan::Punch(plan, punch))
            &&& (plan.ops@, plan.fault) == punch_front(offset, end, journaled)
            &&& plan.fault is None && has_full_blocks(offset, end) ==> punch == (PunchLoop {
                first: blocks_for(offset) as u32,
                stop: (end / PAGE_SIZE) as u32,
            })
        }
    }

    /// Plans to reserve space.
    fn preallocate(
        &self,
        offset: u64,
        len: u64,
        grow_size: bool,
        max_credits: Option<usize>,
        max_file_size: u64,
    ) -> (r: Result<FallocPlan, Error>)
        requires
            len > 0,
        ensures
            self.preallocated(offset, len, grow_size, max_credits, max_file_size, r),
    {
        if len > u64::MAX - offset {
            return Err(Error::RangeOverflow);
        }
        let end: u64 = offset + len;
        match self.ensure_size_within_limit(end, max_file_size) {
            Err(e) => {
                return Err(e);
            },
            Ok(()) => {},
        }
        let (cursor, stop): (u32, u32) = match block_range(offset, end) {
            Err(e) => {
                return Err(e);
            },
            Ok(range) => range,
        };
        let mut ops: Vec<FileOp> = Vec::new();
        let mut grow_to: Option<u64> = None;
        if grow_size && end > self.desc.size {
            grow_to = Some(end);
            match CacheResize::plan(end, self.desc.size) {
                Err(e) => {
                    assert(false);
                    return Err(e);
                },
                Ok(resize) => {
                    ops.push(FileOp::ResizeCache(resize));
                },
            }
        }
        ops.push(FileOp::BeginOp(Reserve::Write));
        let going = PreallocLoop { cursor, stop, grow_to, max_credits };
        let mut request = going.request();
        ops.append(&mut request);
        assert(ops@ =~= preallocate_front(*self, offset, end, grow_size));
        Ok(FallocPlan::Preallocate(ops, going))
    }
}

/// Whether a byte is in one of the ranges.
pub open spec fn in_ranges(ranges: Seq<(int, int)>, byte: int) -> bool {
    exists|i: int| 0 <= i < ranges.len() && (#[trigger] ranges[i]).0 <= byte < ranges[i].1
}

/// Every byte of a hole is either filled with zeros, in a block that is kept, or
/// lies in a block that is freed; and no byte outside of the hole is touched.
/// Each range that is filled lies in one block.
pub proof fn hole_is_covered(offset: u64, end: u64, byte: int)
    requires
        offset < end,
    ensures
        ({
            let freed = inner_start(offset) <= byte < block_start(end);
            let zeroed = in_ranges(partial_ranges(offset, end), byte);
            &&& offset <= byte < end <==> freed || zeroed
            &&& !(freed && zeroed)
        }),
        forall|i: int|
            0 <= i < partial_ranges(offset, end).len() ==> {
                let range = #[trigger] partial_ranges(offset, end)[i];
                let block = range.0 / PAGE_SIZE as int;
                &&& range.0 < range.1
                &&& block == (range.1 - 1) / PAGE_SIZE as int
                &&& !(blocks_for(offset) <= block < end / PAGE_SIZE)
            },
{
    let ranges = partial_ranges(offset, end);
    let start = inner_start(offset);
    let stop = block_start(end) as int;
    if ranges.len() > 0 {
        assert(in_ranges(ranges, byte) <==> (ranges[0].0 <= byte < ranges[0].1 || (ranges.len()
            == 2 && ranges[1].0 <= byte < ranges[1].1)));
    }
}

proof fn lemma_zero_steps_set_no_size(ranges: Seq<(int, int)>)
    ensures
        forall|i: int|
            0 <= i < zero_steps(ranges).0.len() ==> !(#[trigger] zero_steps(
                ranges,
            ).0[i] is SetSize),
    decreases ranges.len(),
{
    if ranges.len() > 0 {
        lemma_zero_steps_set_no_size(ranges.drop_last());
    }
}

/// All steps of a hole that starts with `front` and frees `chunks`.
pub open spec fn punch_run(front: Seq<FileOp>, punch: PunchLoop, chunks: Seq<PunchedChunk>) -> Seq<
    FileOp,
>
    decreases chunks.len(),
{
    if chunks.len() == 0 {
        front
    } else {
        punch_run(front, punch, chunks.drop_last()) + steps_after_punch(punch, chunks.last())
    }
}

proof fn lemma_punch_run_sets_no_size(
    front: Seq<FileOp>,
    punch: PunchLoop,
    chunks: Seq<PunchedChunk>,
)
    requires
        forall|i: int| 0 <= i < front.len() ==> !(#[trigger] front[i] is SetSize),
    ensures
        forall|i: int|
            0 <= i < punch_run(front, punch, chunks).len() ==> !(#[trigger] punch_run(
                front,
                punch,
                chunks,
            )[i] is SetSize),
    decreases chunks.len(),
{
    if chunks.len() > 0 {
        lemma_punch_run_sets_no_size(front, punch, chunks.drop_last());
    }
}

/// A hole leaves the size as it is, however far it came.
pub proof fn punch_keeps_the_size(
    inode: Inode,
    offset: u64,
    end: u64,
    journaled: bool,
    punch: PunchLoop,
    chunks: Seq<PunchedChunk>,
    now: Duration,
    tid: Option<Tid>,
    seen: Seq<ExtentSnapshot>,
)
    ensures
        after_ops(
            inode,
            punch_run(punch_front(offset, end, journaled).0, punch, chunks),
            now,
            tid,
            seen,
        ).desc.size == inode.desc.size,
{
    let front = punch_front(offset, end, journaled).0;
    lemma_zero_steps_set_no_size(partial_ranges(offset, end));
    lemma_punch_run_sets_no_size(front, punch, chunks);
    lemma_size_after(inode, punch_run(front, punch, chunks), now, tid, inode.desc.size, seen);
}

/// How far a reservation came, and its steps up to there. It ends when all is
/// mapped.
pub open spec fn prealloc_run(going: PreallocLoop, fills: Seq<HoleFill>) -> Result<
    (PreallocLoop, Seq<FileOp>),
    Error,
>
    decreases fills.len(),
{
    if fills.len() == 0 {
        Ok((going, seq![]))
    } else {
        match prealloc_run(going, fills.drop_last()) {
            Err(e) => Err(e),
            Ok((before, ops)) => if before.cursor >= before.stop {
                Ok((before, ops))
            } else {
                match prealloc_next(before, fills.last()) {
                    Err(e) => Err(e),
                    Ok((next, steps)) => Ok((next, ops + steps)),
                }
            },
        }
    }
}

/// The steps of a reservation set the size only in the end, and to the size that
/// the file grows to.
proof fn lemma_prealloc_run(going: PreallocLoop, fills: Seq<HoleFill>)
    requires
        going.cursor < going.stop,
    ensures
        prealloc_run(going, fills) matches Ok((next, ops)) ==> {
            &&& next.stop == going.stop
            &&& next.grow_to == going.grow_to
            &&& forall|i: int|
                0 <= i < ops.len() ==> !(#[trigger] ops[i] is SetSize) || (next.cursor >= next.stop
                    && going.grow_to is Some && ops[i] == (FileOp::SetSize {
                    size: going.grow_to->0,
                }))
            &&& next.cursor >= next.stop && going.grow_to is Some ==> exists|i: int|
                0 <= i < ops.len() && #[trigger] ops[i] == (FileOp::SetSize {
                    size: going.grow_to->0,
                })
        },
    decreases fills.len(),
{
    if fills.len() > 0 {
        lemma_prealloc_run(going, fills.drop_last());
        if let Ok((before, ops)) = prealloc_run(going, fills.drop_last()) {
            if before.cursor < before.stop {
                if let Ok((next, steps)) = prealloc_next(before, fills.last()) {
                    let all = ops + steps;
                    let end = preallocate_end(before.grow_to);
                    if next.cursor >= next.stop {
                        if let Some(size) = before.grow_to {
                            assert(end[0] == FileOp::SetSize { size });
                            assert(all[all.len() - end.len()] == end[0]);
                        }
                    }
                    assert forall|i: int| 0 <= i < all.len() implies !(#[trigger] all[i] is SetSize)
                        || (next.cursor >= next.stop && going.grow_to is Some && all[i] == (
                    FileOp::SetSize { size: going.grow_to->0 })) by {
                        if i < ops.len() {
                            assert(all[i] == ops[i]);
                        } else {
                            assert(all[i] == steps[i - ops.len()]);
                        }
                    }
                }
            }
        }
    }
}

/// A reservation sets the size only in the end, when all is mapped: one that
/// fails before leaves it as it was.
pub proof fn reservation_grows_the_file_last(
    inode: Inode,
    offset: u64,
    end: u64,
    grow_size: bool,
    max_credits: Option<usize>,
    fills: Seq<HoleFill>,
    now: Duration,
    tid: Option<Tid>,
    seen: Seq<ExtentSnapshot>,
)
    requires
        offset < end,
        !range_too_wide(offset, end),
    ensures
        ({
            let going = PreallocLoop {
                cursor: (offset / PAGE_SIZE) as u32,
                stop: blocks_for(end) as u32,
                grow_to: grown_to(inode.desc.size, end, grow_size),
                max_credits,
            };
            let front = preallocate_front(inode, offset, end, grow_size);
            &&& after_ops(inode, front, now, tid, seen).desc.size == inode.desc.size
            &&& prealloc_run(going, fills) matches Ok((next, ops)) ==> after_ops(
                inode,
                front + ops,
                now,
                tid,
                seen,
            ).desc.size == (if next.cursor >= next.stop && grow_size && end > inode.desc.size {
                end
            } else {
                inode.desc.size
            })
        }),
{
    let going = PreallocLoop {
        cursor: (offset / PAGE_SIZE) as u32,
        stop: blocks_for(end) as u32,
        grow_to: grown_to(inode.desc.size, end, grow_size),
        max_credits,
    };
    let front = preallocate_front(inode, offset, end, grow_size);
    lemma_size_after(inode, front, now, tid, inode.desc.size, seen);
    lemma_prealloc_run(going, fills);
    if let Ok((next, ops)) = prealloc_run(going, fills) {
        let all = front + ops;
        let size = if next.cursor >= next.stop && grow_size && end > inode.desc.size {
            end
        } else {
            inode.desc.size
        };
        assert forall|i: int| 0 <= i < all.len() implies !(#[trigger] all[i] is SetSize) || all[i]
            == (FileOp::SetSize { size }) by {
            if i < front.len() {
                assert(all[i] == front[i]);
            } else {
                assert(all[i] == ops[i - front.len()]);
            }
        }
        if size != inode.desc.size {
            let i = choose|i: int|
                0 <= i < ops.len() && #[trigger] ops[i] == (FileOp::SetSize { size });
            assert(all[front.len() + i] == ops[i]);
        }
        lemma_size_after(inode, all, now, tid, size, seen);
    }
}

/// A reservation leaves no transaction between mapping blocks and writing back
/// the inode that refers to them.
pub proof fn reservation_chunks_are_whole(before: PreallocLoop, fill: HoleFill)
    requires
        before.cursor < before.stop,
        fill matches HoleFill::Stopped { reached, .. } ==> reached >= before.cursor,
    ensures
        prealloc_next(before, fill) matches Ok((next, steps)) ==> seam_after(
            mapped_some(before.cursor, fill),
            steps,
        ) == Some(false),
{
    if let Ok((next, steps)) = prealloc_next(before, fill) {
        let end = preallocate_end(before.grow_to);
        let stamp = seq![FileOp::StampTimes, FileOp::WriteBack, FileOp::StampDatasync];
        lemma_seam_short(false, stamp[0], stamp[1], stamp[2]);
        lemma_seam_short(true, stamp[0], stamp[1], stamp[2]);
        match before.grow_to {
            Some(size) => {
                let set = FileOp::SetSize { size };
                lemma_seam_short(false, set, set, set);
                lemma_seam_concat(false, seq![set], stamp);
            },
            None => {
                assert(end =~= stamp);
            },
        }
        let back = FileOp::WriteBack;
        lemma_seam_short(true, back, back, back);
        let request = request_steps(next.cursor, before.stop);
        lemma_seam_short(false, request[0], request[1], request[1]);
        match fill {
            HoleFill::Filled => {
                lemma_seam_concat(true, seq![back], end);
            },
            HoleFill::Stopped { reached, need } => {
                let restart = FileOp::Restart { credits: need };
                lemma_seam_short(true, back, restart, restart);
                lemma_seam_short(false, restart, restart, restart);
                if reached > before.cursor {
                    lemma_seam_concat(true, seq![back, restart], request);
                    lemma_seam_concat(true, seq![back, restart], end);
                } else {
                    lemma_seam_concat(false, seq![restart], request);
                }
            },
        }
    }
}

/// A hole leaves no transaction between freeing blocks and writing back the inode
/// that referred to them.
pub proof fn hole_chunks_are_whole(punch: PunchLoop, chunk: PunchedChunk)
    ensures
        seam_after(true, steps_after_punch(punch, chunk)) == Some(false),
{
    let steps = steps_after_punch(punch, chunk);
    lemma_seam_short(true, steps[0], steps[1], steps[2]);
    assert(steps =~= seq![steps[0], steps[1], steps[2]]);
}

} // verus!
