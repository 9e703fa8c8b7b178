//! Writing to files.
//!
//! Blocks are mapped as unwritten first, then the bytes go into the page cache,
//! and then the blocks become written, all in one transaction. A long append is
//! split into chunks, each in a transaction of its own.

use vstd::prelude::*;

use crate::error::Error;
use crate::inode::desc::InodeType;
use crate::inode::node::{size_limit, ExtentSnapshot, Inode, PAGE_SIZE};
use crate::inode::ops::{
    after_ops, boundary_too_wide, cache_resize, lemma_backed_after, lemma_seam_concat,
    lemma_seam_short, lemma_size_after, seam_after, CacheResize, FileOp, Reserve,
};
use crate::inode::resize::{block_count, blocks_for};
use crate::inode::time::Duration;
use crate::journal::tid::Tid;

verus! {

/// Whether a range starts or ends in a block that has no 32-bit index.
pub open spec fn range_too_wide(offset: u64, end: u64) -> bool {
    offset / PAGE_SIZE > u32::MAX || blocks_for(end) > u32::MAX
}

/// The blocks that a range of bytes touches: the first, and the first behind.
pub fn block_range(offset: u64, end: u64) -> (r: Result<(u32, u32), Error>)
    ensures
        r == (if range_too_wide(offset, end) {
            Err::<(u32, u32), Error>(Error::BlockIndexTooWide)
        } else {
            Ok(((offset / PAGE_SIZE) as u32, blocks_for(end) as u32))
        }),
{
    let first: u64 = offset / PAGE_SIZE;
    if first > u32::MAX as u64 {
        return Err(Error::BlockIndexTooWide);
    }
    match block_count(end) {
        Err(e) => Err(e),
        Ok(stop) => Ok((first as u32, stop)),
    }
}

/// Why a write cannot be prepared.
pub open spec fn write_fault(inode: Inode, offset: u64, end: u64, max_file_size: u64) -> Option<
    Error,
> {
    if range_too_wide(offset, end) {
        Some(Error::BlockIndexTooWide)
    } else if end > inode.desc.size && end > size_limit(inode.desc.type_, max_file_size) {
        Some(Error::SizeLimit)
    } else if inode.payload is DataBacked {
        None
    } else if end > inode.desc.size {
        Some(Error::NoPageCache)
    } else {
        Some(Error::NoBlockManager)
    }
}

/// The steps of a write in one transaction.
pub open spec fn write_steps(inode: Inode, offset: u64, end: u64) -> Seq<FileOp> {
    let first = (offset / PAGE_SIZE) as u32;
    let stop = blocks_for(end) as u32;
    let work = seq![
        FileOp::Allocate { first, stop },
        FileOp::WritePages { start: offset, end },
        FileOp::MarkWritten { first, stop },
        FileOp::StampTimes,
    ];
    if end > inode.desc.size {
        seq![FileOp::ResizeCache(cache_resize(end, inode.desc.size))] + work + seq![
            FileOp::SetSize { size: end },
        ]
    } else {
        work
    }
}

/// The steps that undo a failed write which was to reach `end`: they free what
/// it mapped past the size from before.
pub open spec fn rollback_steps(inode: Inode, end: u64) -> Seq<FileOp> {
    let old_size = inode.desc.size;
    let free = seq![FileOp::Truncate { size: old_size }];
    if end <= old_size || !(inode.payload is DataBacked) {
        seq![]
    } else if boundary_too_wide(old_size, end) {
        free
    } else {
        seq![FileOp::ResizeCache(cache_resize(old_size, end))] + free
    }
}

/// The steps after a write: with a journal, the inode goes into the same
/// transaction as the blocks, and the data is written before it commits.
pub open spec fn cover_steps(journaled: bool) -> Seq<FileOp> {
    if journaled {
        seq![FileOp::WriteBack, FileOp::StampDatasync, FileOp::RegisterOrdered]
    } else {
        seq![]
    }
}

/// The steps after a write with a journal.
fn cover_ops() -> (ops: Vec<FileOp>)
    ensures
        ops@ == cover_steps(true),
{
    vec![FileOp::WriteBack, FileOp::StampDatasync, FileOp::RegisterOrdered]
}

/// A write in one transaction, which was joined before.
pub struct SingleWrite {
    /// Why it cannot be prepared.
    pub fault: Option<Error>,
    pub body: Vec<FileOp>,
    /// What is performed instead of the rest when the body fails, or cannot be
    /// prepared. Failures of these steps are passed over.
    pub rollback: Vec<FileOp>,
    pub after: Vec<FileOp>,
}

/// A write.
pub enum WritePlan {
    /// There is nothing to write.
    Nothing,
    /// The write fails, once a transaction was joined for it.
    Refused(Error),
    /// In one transaction.
    Single(SingleWrite),
    /// In chunks.
    Append(AppendWrite),
}

/// The steps that undo a failed write.
pub fn rollback_write(inode: &Inode, end: u64) -> (ops: Vec<FileOp>)
    ensures
        ops@ == rollback_steps(*inode, end),
{
    let old_size: u64 = inode.desc.size;
    let mut ops: Vec<FileOp> = Vec::new();
    if end <= old_size || !inode.payload.is_data_backed() {
        assert(ops@ =~= seq![]);
        return ops;
    }
    match CacheResize::plan(old_size, end) {
        Ok(resize) => {
            ops.push(FileOp::ResizeCache(resize));
        },
        Err(_) => {},
    }
    ops.push(FileOp::Truncate { size: old_size });
    assert(ops@ =~= rollback_steps(*inode, end));
    ops
}

/// The steps of a write, or why it cannot be prepared.
fn prepare_write(inode: &Inode, offset: u64, end: u64, max_file_size: u64) -> (r: Result<
    Vec<FileOp>,
    Error,
>)
    requires
        offset < end,
    ensures
        match r {
            Err(e) => write_fault(*inode, offset, end, max_file_size) == Some(e),
            Ok(ops) => {
                &&& write_fault(*inode, offset, end, max_file_size) is None
                &&& ops@ == write_steps(*inode, offset, end)
            },
        },
{
    let old_size: u64 = inode.desc.size;
    let (first, stop): (u32, u32) = match block_range(offset, end) {
        Err(e) => {
            return Err(e);
        },
        Ok(range) => range,
    };
    let mut ops: Vec<FileOp> = Vec::new();
    if end > old_size {
        match inode.ensure_size_within_limit(end, max_file_size) {
            Err(e) => {
                return Err(e);
            },
            Ok(()) => {},
        }
        if !inode.payload.is_data_backed() {
            return Err(Error::NoPageCache);
        }
        match CacheResize::plan(end, old_size) {
            Err(e) => {
                assert(false);
                return Err(e);
            },
            Ok(resize) => {
                ops.push(FileOp::ResizeCache(resize));
            },
        }
    }
    if !inode.payload.is_data_backed() {
        return Err(Error::NoBlockManager);
    }
    ops.push(FileOp::Allocate { first, stop });
    ops.push(FileOp::WritePages { start: offset, end });
    ops.push(FileOp::MarkWritten { first, stop });
    ops.push(FileOp::StampTimes);
    if end > old_size {
        ops.push(FileOp::SetSize { size: end });
    }
    assert(ops@ =~= write_steps(*inode, offset, end));
    Ok(ops)
}

/// How an append of `offset..end` starts.
pub open spec fn append_start(
    offset: u64,
    end: u64,
    max_credits: usize,
    max_file_size: u64,
) -> AppendWrite {
    AppendWrite {
        offset,
        end,
        cursor: (offset / PAGE_SIZE) as u32,
        stop: blocks_for(end) as u32,
        written: 0,
        max_credits,
        max_file_size,
    }
}

impl Inode {
    /// Plans to write `len` bytes at `offset`. With a journal, `max_credits` is
    /// the room of a transaction. An error comes before a transaction is joined.
    /// For every plan but that of an empty write, the caller joins one first.
    pub fn write_at(
        &self,
        offset: u64,
        len: u64,
        max_credits: Option<usize>,
        max_file_size: u64,
    ) -> (r: Result<WritePlan, Error>)
        ensures
            ({
                let end = (offset + len) as u64;
                let append = max_credits is Some && offset >= self.desc.size;
                match r {
                    Err(e) => {
                        ||| self.desc.type_ == InodeType::Dir && e == Error::IsDirectory
                        ||| {
                            &&& self.desc.type_ != InodeType::Dir
                            &&& len > 0
                            &&& offset + len > u64::MAX
                            &&& e == Error::RangeOverflow
                        }
                    },
                    Ok(WritePlan::Refused(e)) => {
                        &&& self.desc.type_ != InodeType::Dir
                        &&& len > 0
                        &&& offset + len <= u64::MAX
                        &&& append
                        &&& if range_too_wide(offset, end) {
                            e == Error::BlockIndexTooWide
                        } else {
                            !(self.payload is DataBacked) && e == Error::NoBlockManager
                        }
                    },
                    Ok(WritePlan::Nothing) => self.desc.type_ != InodeType::Dir && len == 0,
                    Ok(WritePlan::Single(plan)) => {
                        &&& self.desc.type_ != InodeType::Dir
                        &&& len > 0
                        &&& offset + len <= u64::MAX
                        &&& !append
                        &&& plan.fault == write_fault(*self, offset, end, max_file_size)
                        &&& plan.fault is None ==> plan.body@ == write_steps(*self, offset, end)
                        &&& plan.fault is Some ==> plan.body@ == Seq::<FileOp>::empty()
                        &&& plan.rollback@ == rollback_steps(*self, end)
                        &&& plan.after@ == cover_steps(max_credits is Some)
                    },
                    Ok(WritePlan::Append(plan)) => {
                        &&& self.desc.type_ != InodeType::Dir
                        &&& len > 0
                        &&& offset + len <= u64::MAX
                        &&& append
                        &&& !range_too_wide(offset, end)
                        &&& self.payload is DataBacked
                        &&& plan == append_start(offset, end, max_credits->0, max_file_size)
                        &&& plan.wf()
                        &&& plan.fits(*self)
                    },
                }
            }),
    {
        if self.desc.type_ == InodeType::Dir {
            return Err(Error::IsDirectory);
        }
        if len == 0 {
            return Ok(WritePlan::Nothing);
        }
        if len > u64::MAX - offset {
            return Err(Error::RangeOverflow);
        }
        let end: u64 = offset + len;
        match max_credits {
            Some(max_credits) => {
                if offset >= self.desc.size {
                    let (cursor, stop): (u32, u32) = match block_range(offset, end) {
                        Err(e) => {
                            return Ok(WritePlan::Refused(e));
                        },
                        Ok(range) => range,
                    };
                    if !self.payload.is_data_backed() {
                        return Ok(WritePlan::Refused(Error::NoBlockManager));
                    }
                    return Ok(
                        WritePlan::Append(
                            AppendWrite {
                                offset,
                                end,
                                cursor,
                                stop,
                                written: 0,
                                max_credits,
                                max_file_size,
                            },
                        ),
                    );
                }
            },
            None => {},
        }
        let rollback = rollback_write(self, end);
        let after = if max_credits.is_some() {
            cover_ops()
        } else {
            Vec::new()
        };
        assert(after@ =~= cover_steps(max_credits is Some));
        let (fault, body) = match prepare_write(self, offset, end, max_file_size) {
            Err(e) => (Some(e), Vec::new()),
            Ok(body) => (None, body),
        };
        Ok(WritePlan::Single(SingleWrite { fault, body, rollback, after }))
    }
}

/// How far mapping the holes of a range came.
#[derive(Clone, Copy, Debug, PartialEq, Eq, Structural)]
pub enum HoleFill {
    /// All are mapped.
    Filled,
    /// They are mapped up to `reached`. The next needs `need` of room.
    Stopped { reached: u32, need: usize },
}

/// An append, chunk by chunk.
#[derive(Clone, Copy, Debug, PartialEq, Eq, Structural)]
pub struct AppendWrite {
    pub offset: u64,
    pub end: u64,
    /// The first block that is not written yet.
    pub cursor: u32,
    /// The first block behind the append.
    pub stop: u32,
    /// Bytes that were written by the chunks before.
    pub written: u64,
    pub max_credits: usize,
    pub max_file_size: u64,
}

/// Where a chunk that starts in block `cursor` has its first byte.
pub open spec fn chunk_start(offset: u64, cursor: u32) -> int {
    if offset > cursor * PAGE_SIZE {
        offset as int
    } else {
        cursor * PAGE_SIZE
    }
}

/// Where a chunk that reached the block `reached` ends.
pub open spec fn chunk_end(end: u64, reached: u32) -> int {
    if end < reached * PAGE_SIZE {
        end as int
    } else {
        reached * PAGE_SIZE
    }
}

/// What comes after mapping blocks for a chunk.
pub enum FillStep {
    /// Nothing was mapped: the steps to try again in a new transaction.
    Retry(Vec<FileOp>),
    /// The append ends here.
    Over(Result<u64, Error>),
    /// The chunk up to the block `reached`. If it fails or has a fault, see
    /// [`AppendWrite::chunk_failed`].
    Chunk { reached: u32, fault: Option<Error>, body: Vec<FileOp> },
}

/// The result of an append that ends early: a short write if some chunks were
/// written, and the error otherwise.
pub open spec fn short_write(written: u64, e: Error) -> Result<u64, Error> {
    if written > 0 {
        Ok(written)
    } else {
        Err(e)
    }
}

/// The steps of a chunk. The page cache grows to the end of the chunk, which
/// bounds what is copied.
pub open spec fn chunk_steps(append: AppendWrite, inode: Inode, reached: u32) -> Seq<FileOp> {
    let end = chunk_end(append.end, reached) as u64;
    seq![
        FileOp::ResizeCache(cache_resize(end, inode.desc.size)),
        FileOp::WritePages { start: chunk_start(append.offset, append.cursor) as u64, end },
        FileOp::MarkWritten { first: append.cursor, stop: reached },
        FileOp::StampTimes,
        FileOp::SetSize { size: end },
    ]
}

/// The steps that ask for the next blocks.
pub open spec fn request_steps(first: u32, stop: u32) -> Seq<FileOp> {
    seq![FileOp::EnsureCredits(Reserve::Write), FileOp::AllocateChunk { first, stop }]
}

impl AppendWrite {
    /// What was written ends at the cursor.
    pub open spec fn wf(self) -> bool {
        &&& self.offset < self.end
        &&& !range_too_wide(self.offset, self.end)
        &&& self.stop == blocks_for(self.end)
        &&& self.offset / PAGE_SIZE <= self.cursor
        &&& self.written == (if self.cursor == self.offset / PAGE_SIZE {
            0
        } else {
            chunk_end(self.end, self.cursor) - self.offset
        })
    }

    /// The size of the inode is that of an append: it ends no later than what
    /// was written.
    pub open spec fn fits(self, inode: Inode) -> bool {
        &&& inode.payload is DataBacked
        &&& inode.desc.size <= self.offset + self.written
    }

    /// Whether all is written.
    pub fn is_done(&self) -> (r: bool)
        ensures
            r == (self.cursor >= self.stop),
    {
        self.cursor >= self.stop
    }

    /// The steps that ask for the next blocks.
    pub fn request(&self) -> (ops: Vec<FileOp>)
        ensures
            ops@ == request_steps(self.cursor, self.stop),
    {
        vec![
            FileOp::EnsureCredits(Reserve::Write),
            FileOp::AllocateChunk { first: self.cursor, stop: self.stop },
        ]
    }

    /// Goes on after blocks were mapped. If not even one fit, a new transaction
    /// with the room it needs is tried, unless no transaction has that much.
    pub fn on_fill(&self, inode: &Inode, fill: HoleFill) -> (step: FillStep)
        requires
            self.wf(),
            self.fits(*inode),
            self.cursor < self.stop,
            fill matches HoleFill::Stopped { reached, .. } ==> reached >= self.cursor,
        ensures
            match fill {
                HoleFill::Stopped { reached, need } if reached == self.cursor => {
                    if need > self.max_credits {
                        step == FillStep::Over(
                            short_write(self.written, Error::InsertExceedsTransaction),
                        )
                    } else {
                        step matches FillStep::Retry(ops) && ops@ == seq![
                            FileOp::Restart { credits: need },
                        ] + request_steps(self.cursor, self.stop)
                    }
                },
                _ => {
                    let to = match fill {
                        HoleFill::Filled => self.stop,
                        HoleFill::Stopped { reached, .. } => reached,
                    };
                    &&& step matches FillStep::Chunk { reached, fault, body }
                    &&& reached == to
                    &&& fault == (if chunk_end(self.end, to) > size_limit(
                        inode.desc.type_,
                        self.max_file_size,
                    ) {
                        Some(Error::SizeLimit)
                    } else {
                        None
                    })
                    &&& body@ == (if fault is Some {
                        Seq::<FileOp>::empty()
                    } else {
                        chunk_steps(*self, *inode, to)
                    })
                },
            },
    {
        let reached: u32 = match fill {
            HoleFill::Filled => self.stop,
            HoleFill::Stopped { reached, need } => {
                if reached == self.cursor {
                    if need > self.max_credits {
                        return FillStep::Over(
                            self.shortened(Error::InsertExceedsTransaction),
                        );
                    }
                    let mut ops: Vec<FileOp> = vec![FileOp::Restart { credits: need }];
                    let mut request = self.request();
                    ops.append(&mut request);
                    return FillStep::Retry(ops);
                }
                reached
            },
        };
        let from: u64 = self.cursor as u64 * PAGE_SIZE;
        let start: u64 = if self.offset > from {
            self.offset
        } else {
            from
        };
        let to: u64 = reached as u64 * PAGE_SIZE;
        let end: u64 = if self.end < to {
            self.end
        } else {
            to
        };
        match inode.ensure_size_within_limit(end, self.max_file_size) {
            Err(e) => {
                return FillStep::Chunk { reached, fault: Some(e), body: Vec::new() };
            },
            Ok(()) => {},
        }
        match CacheResize::plan(end, inode.desc.size) {
            Err(e) => {
                assert(false);
                FillStep::Over(Err(e))
            },
            Ok(resize) => {
                let body = vec![
                    FileOp::ResizeCache(resize),
                    FileOp::WritePages { start, end },
                    FileOp::MarkWritten { first: self.cursor, stop: reached },
                    FileOp::StampTimes,
                    FileOp::SetSize { size: end },
                ];
                assert(body@ =~= chunk_steps(*self, *inode, reached));
                FillStep::Chunk { reached, fault: None, body }
            },
        }
    }

    /// The result of the append if it ends here.
    fn shortened(&self, e: Error) -> (r: Result<u64, Error>)
        ensures
            r == short_write(self.written, e),
    {
        if self.written > 0 {
            Ok(self.written)
        } else {
            Err(e)
        }
    }

    /// What follows when mapping blocks, or a step of a chunk, failed: the steps
    /// that undo the chunk, and the result of the append. The chunks before are
    /// left as they are.
    pub fn chunk_failed(&self, inode: &Inode, e: Error) -> (r: (Vec<FileOp>, Result<u64, Error>))
        ensures
            r.0@ == rollback_steps(*inode, self.end),
            r.1 == short_write(self.written, e),
    {
        (rollback_write(inode, self.end), self.shortened(e))
    }

    /// The steps after a chunk was written. The inode goes into the transaction
    /// of the chunk, and a sync of the data waits for it, though the append may
    /// end short with this chunk.
    pub fn chunk_done(&mut self, reached: u32) -> (ops: Vec<FileOp>)
        requires
            old(self).wf(),
            old(self).cursor < reached,
        ensures
            final(self).wf(),
            *final(self) == (AppendWrite {
                cursor: reached,
                written: (chunk_end(old(self).end, reached) - old(self).offset) as u64,
                ..*old(self)
            }),
            ops@ == cover_steps(true) + (if reached < old(self).stop {
                request_steps(reached, old(self).stop)
            } else {
                seq![]
            }),
    {
        let to: u64 = reached as u64 * PAGE_SIZE;
        let end: u64 = if self.end < to {
            self.end
        } else {
            to
        };
        self.cursor = reached;
        self.written = end - self.offset;
        let mut ops = cover_ops();
        if reached < self.stop {
            let mut request = self.request();
            ops.append(&mut request);
        }
        assert(ops@ =~= cover_steps(true) + (if reached < old(self).stop {
            request_steps(reached, old(self).stop)
        } else {
            seq![]
        }));
        ops
    }
}

/// The chunks of an append are the append: each starts where the one before
/// ended, the first starts at its offset, and the last ends at its end. What is
/// counted as written, and the size that is set, end where the last chunk does.
pub proof fn append_chunks_tile(
    offset: u64,
    end: u64,
    max_credits: usize,
    max_file_size: u64,
    marks: Seq<u32>,
)
    requires
        offset < end,
        !range_too_wide(offset, end),
        marks.len() >= 2,
        marks[0] == offset / PAGE_SIZE,
        forall|i: int, j: int| 0 <= i < j < marks.len() ==> marks[i] < marks[j],
        marks[marks.len() - 2] < blocks_for(end),
        marks.last() >= blocks_for(end),
    ensures
        chunk_start(offset, marks[0]) == offset,
        forall|i: int|
            1 <= i < marks.len() - 1 ==> #[trigger] chunk_start(offset, marks[i]) == chunk_end(
                end,
                marks[i],
            ),
        chunk_end(end, marks.last()) == end,
        forall|i: int|
            0 <= i < marks.len() - 1 ==> #[trigger] chunk_start(offset, marks[i]) < chunk_end(
                end,
                marks[i + 1],
            ),
{
    assert forall|i: int| 1 <= i < marks.len() - 1 implies #[trigger] chunk_start(offset, marks[i])
        == chunk_end(end, marks[i]) by {
        assert(marks[i] <= marks[marks.len() - 2]);
        assert(marks[0] < marks[i]);
    }
    assert forall|i: int| 0 <= i < marks.len() - 1 implies #[trigger] chunk_start(offset, marks[i])
        < chunk_end(end, marks[i + 1]) by {
        assert(marks[i] <= marks[marks.len() - 2]);
        assert(marks[0] <= marks[i]);
        assert(marks[i] < marks[i + 1]);
    }
}

/// The size after a chunk is the offset of the append and what is counted as
/// written, so that the next chunk is an append again.
pub proof fn chunk_publishes_its_size(
    append: AppendWrite,
    inode: Inode,
    reached: u32,
    now: Duration,
    tid: Option<Tid>,
    seen: Seq<ExtentSnapshot>,
)
    requires
        append.wf(),
        append.fits(inode),
        append.cursor < reached,
    ensures
        ({
            let next = AppendWrite {
                cursor: reached,
                written: (chunk_end(append.end, reached) - append.offset) as u64,
                ..append
            };
            let after = after_ops(inode, chunk_steps(append, inode, reached), now, tid, seen);
            &&& after.desc.size == next.offset + next.written
            &&& next.fits(after)
        }),
{
    let steps = chunk_steps(append, inode, reached);
    let end = chunk_end(append.end, reached) as u64;
    assert(steps[4] == FileOp::SetSize { size: end });
    lemma_size_after(inode, steps, now, tid, end, seen);
    lemma_backed_after(inode, steps, now, tid, seen);
}

/// A write that fails leaves the size as it was, at whatever step it fails; one
/// that succeeds reaches at least to its end.
pub proof fn write_sets_the_size_last(
    inode: Inode,
    offset: u64,
    end: u64,
    done: int,
    now: Duration,
    tid: Option<Tid>,
    seen: Seq<ExtentSnapshot>,
)
    requires
        0 <= done < write_steps(inode, offset, end).len(),
    ensures
        after_ops(
            inode,
            write_steps(inode, offset, end).take(done) + rollback_steps(inode, end),
            now,
            tid,
            seen,
        ).desc.size == inode.desc.size,
        after_ops(inode, write_steps(inode, offset, end), now, tid, seen).desc.size == (if end
            > inode.desc.size {
            end
        } else {
            inode.desc.size
        }),
{
    let steps = write_steps(inode, offset, end);
    let failed = steps.take(done) + rollback_steps(inode, end);
    assert forall|i: int| 0 <= i < failed.len() implies !(#[trigger] failed[i] is SetSize) by {
        if i < done {
            assert(failed[i] == steps[i]);
        }
    }
    lemma_size_after(inode, failed, now, tid, inode.desc.size, seen);
    if end > inode.desc.size {
        assert(steps[5] == FileOp::SetSize { size: end });
        lemma_size_after(inode, steps, now, tid, end, seen);
    } else {
        lemma_size_after(inode, steps, now, tid, inode.desc.size, seen);
    }
}

/// The steps after blocks were mapped for a chunk, up to the next request, if
/// none of them fails.
pub open spec fn fill_steps(append: AppendWrite, inode: Inode, fill: HoleFill) -> Seq<FileOp> {
    match fill {
        HoleFill::Stopped { reached, need } if reached == append.cursor => {
            if need > append.max_credits {
                seq![]
            } else {
                seq![FileOp::Restart { credits: need }] + request_steps(append.cursor, append.stop)
            }
        },
        _ => {
            let reached = match fill {
                HoleFill::Filled => append.stop,
                HoleFill::Stopped { reached, .. } => reached,
            };
            chunk_steps(append, inode, reached) + cover_steps(true) + (if reached < append.stop {
                request_steps(reached, append.stop)
            } else {
                seq![]
            })
        },
    }
}

/// Whether blocks were mapped from `cursor` on.
pub open spec fn mapped_some(cursor: u32, fill: HoleFill) -> bool {
    !(fill matches HoleFill::Stopped { reached, .. } && reached == cursor)
}

/// An append leaves no transaction between mapping blocks and writing back the
/// inode that refers to them: after a crash, each chunk is there as a whole or
/// not at all.
pub proof fn append_chunks_are_whole(append: AppendWrite, inode: Inode, fill: HoleFill)
    ensures
        seam_after(mapped_some(append.cursor, fill), fill_steps(append, inode, fill)) == Some(
            false,
        ),
{
    let ops = fill_steps(append, inode, fill);
    let request = request_steps(append.cursor, append.stop);
    lemma_seam_short(false, request[0], request[1], request[1]);
    if !mapped_some(append.cursor, fill) {
        if fill->need <= append.max_credits {
            let restart = FileOp::Restart { credits: fill->need };
            lemma_seam_short(false, restart, restart, restart);
            lemma_seam_concat(false, seq![restart], request);
        }
    } else {
        let reached = match fill {
            HoleFill::Filled => append.stop,
            HoleFill::Stopped { reached, .. } => reached,
        };
        let steps = chunk_steps(append, inode, reached);
        let cover = cover_steps(true);
        let front = seq![steps[0], steps[1], steps[2]];
        let back = seq![steps[3], steps[4]];
        lemma_seam_short(true, steps[0], steps[1], steps[2]);
        lemma_seam_short(true, steps[3], steps[4], steps[4]);
        lemma_seam_short(true, cover[0], cover[1], cover[2]);
        assert(steps =~= front + back);
        lemma_seam_concat(true, front, back);
        lemma_seam_concat(true, steps, cover);
        let next = request_steps(reached, append.stop);
        lemma_seam_short(false, next[0], next[1], next[1]);
        if reached < append.stop {
            lemma_seam_concat(true, steps + cover, next);
        } else {
            assert(ops =~= steps + cover);
        }
    }
}

/// Whether every block that becomes written has had its bytes written before, by
/// the same steps, and was mapped or at least looked at for a hole before that.
pub open spec fn exposes_only_data(ops: Seq<FileOp>) -> bool {
    forall|i: int|
        0 <= i < ops.len() && #[trigger] ops[i] is MarkWritten ==> exists|j: int|
            0 <= j < i && #[trigger] ops[j] is WritePages && ops[j]->WritePages_start / PAGE_SIZE
                == ops[i]->MarkWritten_first && blocks_for(ops[j]->WritePages_end)
                == ops[i]->MarkWritten_stop
}

/// Blocks become readable only after their bytes are in the page cache, so that
/// no old content of a block is ever seen: in a write, and in each chunk of an
/// append.
pub proof fn blocks_are_written_before_they_are_read(
    inode: Inode,
    offset: u64,
    end: u64,
    append: AppendWrite,
    reached: u32,
)
    requires
        !range_too_wide(offset, end),
        append.wf(),
        append.cursor < reached <= append.stop,
    ensures
        exposes_only_data(write_steps(inode, offset, end)),
        exposes_only_data(chunk_steps(append, inode, reached)),
{
    let steps = write_steps(inode, offset, end);
    let first = if end > inode.desc.size {
        1int
    } else {
        0
    };
    assert(steps[first + 1] == FileOp::WritePages { start: offset, end });
    assert forall|i: int| 0 <= i < steps.len() && #[trigger] steps[i] is MarkWritten implies exists|
        j: int,
    |
        0 <= j < i && #[trigger] steps[j] is WritePages && steps[j]->WritePages_start / PAGE_SIZE
            == steps[i]->MarkWritten_first && blocks_for(steps[j]->WritePages_end)
            == steps[i]->MarkWritten_stop by {
        assert(i == first + 2);
        assert(steps[first + 1] is WritePages);
    }
    let chunk = chunk_steps(append, inode, reached);
    let from = chunk_start(append.offset, append.cursor);
    let to = chunk_end(append.end, reached);
    assert(from / PAGE_SIZE as int == append.cursor);
    assert(blocks_for(to as u64) == reached);
    assert forall|i: int| 0 <= i < chunk.len() && #[trigger] chunk[i] is MarkWritten implies exists|
        j: int,
    |
        0 <= j < i && #[trigger] chunk[j] is WritePages && chunk[j]->WritePages_start / PAGE_SIZE
            == chunk[i]->MarkWritten_first && blocks_for(chunk[j]->WritePages_end)
            == chunk[i]->MarkWritten_stop by {
        assert(i == 2);
        assert(chunk[1] is WritePages);
    }
}

} // verus!
