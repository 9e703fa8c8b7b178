//! What the plans of writes do to the file, told by offsets, sizes and times.

use vstd::prelude::*;

use crate::error::Error;
use crate::inode::desc::{Dtime, InodeType};
use crate::inode::node::{ExtentSnapshot, Inode, InodePayload};
use crate::inode::ops::{after_ops, lemma_size_after, CacheResize, FileOp, Reserve};
use crate::inode::time::Duration;
use crate::inode::write::{AppendWrite, FillStep, HoleFill, WritePlan};
use crate::journal::tid::Tid;

verus! {

/// Whether the times of the last modification and of the last change are `now`.
pub open spec fn stamped_now(inode: Inode, now: Duration) -> bool {
    inode.desc.mtime == now && inode.desc.ctime == now
}

/// Whether the page cache reaches over the bytes up to `size`, and not a page
/// further.
pub open spec fn cache_reaches(inode: Inode, size: u64) -> bool {
    inode.payload matches InodePayload::DataBacked { npages, .. } ==> size <= npages * 4096 < size
        + 4096
}

/// Steps with a stamp among them leave the times stamped.
pub proof fn lemma_stamped_after(
    inode: Inode,
    ops: Seq<FileOp>,
    now: Duration,
    tid: Option<Tid>,
    seen: Seq<ExtentSnapshot>,
)
    requires
        stamped_now(inode, now) || exists|i: int|
            0 <= i < ops.len() && #[trigger] ops[i] is StampTimes,
    ensures
        stamped_now(after_ops(inode, ops, now, tid, seen), now),
    decreases ops.len(),
{
    if ops.len() > 0 {
        let init = ops.drop_last();
        if !(ops.last() is StampTimes) {
            if !stamped_now(inode, now) {
                let i = choose|i: int| 0 <= i < ops.len() && #[trigger] ops[i] is StampTimes;
                assert(init[i] is StampTimes);
            }
            lemma_stamped_after(inode, init, now, tid, seen);
        }
    }
}

/// Steps that resize the page cache to one size leave it there.
pub proof fn lemma_cache_after(
    inode: Inode,
    ops: Seq<FileOp>,
    now: Duration,
    tid: Option<Tid>,
    size: u64,
    seen: Seq<ExtentSnapshot>,
)
    requires
        cache_reaches(inode, size) || exists|i: int|
            0 <= i < ops.len() && #[trigger] ops[i] is ResizeCache,
        forall|i: int|
            0 <= i < ops.len() && #[trigger] ops[i] is ResizeCache ==> ops[i]->ResizeCache_0.new
                == size,
    ensures
        cache_reaches(after_ops(inode, ops, now, tid, seen), size),
    decreases ops.len(),
{
    if ops.len() > 0 {
        let init = ops.drop_last();
        assert forall|i: int| 0 <= i < init.len() && #[trigger] init[i] is ResizeCache implies init[
            i]->ResizeCache_0.new == size by {
            assert(init[i] == ops[i]);
        }
        if ops.last() is ResizeCache {
            assert(ops[ops.len() - 1]->ResizeCache_0.new == size);
        } else {
            if !cache_reaches(inode, size) {
                let i = choose|i: int| 0 <= i < ops.len() && #[trigger] ops[i] is ResizeCache;
                assert(init[i] is ResizeCache);
            }
            lemma_cache_after(inode, init, now, tid, size, seen);
        }
    }
}

/// Whether nothing is left to write of the inode, and syncs of either scope wait for
/// the transaction `tid`.
pub open spec fn carried_by(inode: Inode, tid: Tid) -> bool {
    &&& !inode.dirty
    &&& inode.sync_tid == Some(tid)
    &&& inode.datasync_tid == Some(tid)
}

proof fn lemma_dirty_after(
    inode: Inode,
    ops: Seq<FileOp>,
    now: Duration,
    tid: Option<Tid>,
    seen: Seq<ExtentSnapshot>,
    i: int,
)
    requires
        0 <= i < ops.len(),
        ops[i] is StampTimes,
        forall|m: int| i < m < ops.len() ==> !(#[trigger] ops[m] is WriteBack),
    ensures
        after_ops(inode, ops, now, tid, seen).dirty,
    decreases ops.len(),
{
    if i < ops.len() - 1 {
        let init = ops.drop_last();
        assert forall|m: int| i < m < init.len() implies !(#[trigger] init[m] is WriteBack) by {
            assert(init[m] == ops[m]);
        }
        lemma_dirty_after(inode, init, now, tid, seen, i);
        assert(!(ops[ops.len() - 1] is WriteBack));
    }
}

/// Steps that stamp the times, write the inode back after that, and then note the
/// transaction, leave the inode carried by it.
pub proof fn lemma_carried_after(
    inode: Inode,
    ops: Seq<FileOp>,
    now: Duration,
    tid: Tid,
    seen: Seq<ExtentSnapshot>,
    i: int,
    k: int,
)
    requires
        0 <= i < k < ops.len(),
        ops[i] is StampTimes,
        forall|m: int| i < m < k ==> !(#[trigger] ops[m] is WriteBack),
        ops[k] is WriteBack,
        forall|m: int|
            k < m < ops.len() ==> #[trigger] ops[m] is StampDatasync || ops[m] is RegisterOrdered,
    ensures
        ({
            let after = after_ops(inode, ops, now, Some(tid), seen);
            &&& !after.dirty
            &&& after.sync_tid == Some(tid)
            &&& (exists|m: int| k < m < ops.len() && #[trigger] ops[m] is StampDatasync)
                ==> after.datasync_tid == Some(tid)
        }),
    decreases ops.len(),
{
    let init = ops.drop_last();
    if k == ops.len() - 1 {
        assert forall|m: int| i < m < init.len() implies !(#[trigger] init[m] is WriteBack) by {
            assert(init[m] == ops[m]);
        }
        lemma_dirty_after(inode, init, now, Some(tid), seen, i);
    } else {
        assert forall|m: int| i < m < k implies !(#[trigger] init[m] is WriteBack) by {
            assert(init[m] == ops[m]);
        }
        assert forall|m: int| k < m < init.len() implies #[trigger] init[m] is StampDatasync
            || init[m] is RegisterOrdered by {
            assert(init[m] == ops[m]);
        }
        lemma_carried_after(inode, init, now, tid, seen, i, k);
        let last = ops[ops.len() - 1];
        assert(last is StampDatasync || last is RegisterOrdered);
        if exists|m: int| k < m < ops.len() && #[trigger] ops[m] is StampDatasync {
            if !(last is StampDatasync) {
                let m = choose|m: int| k < m < ops.len() && #[trigger] ops[m] is StampDatasync;
                assert(init[m] is StampDatasync);
            }
        }
    }
}

/// A step changes of the inode what it says, and nothing else: the size, the times,
/// how far the page cache reaches, or what is written of it.
pub proof fn steps_change_what_they_say(
    inode: &mut Inode,
    op: FileOp,
    now: Duration,
    tid: Option<Tid>,
    extents: ExtentSnapshot,
)
    requires
        call_ensures(Inode::apply, (inode, op, now, tid, &extents), ()),
    ensures
        op is StampTimes ==> stamped_now(*final(inode), now),
        !(op is StampTimes) ==> final(inode).desc.mtime == old(inode).desc.mtime,
        !(op is StampTimes) ==> final(inode).desc.ctime == old(inode).desc.ctime,
        op matches FileOp::SetSize { size } ==> final(inode).desc.size == size,
        !(op is SetSize) ==> final(inode).desc.size == old(inode).desc.size,
        op matches FileOp::ResizeCache(resize) ==> cache_reaches(*final(inode), resize.new),
        !(op is ResizeCache) ==> final(inode).payload == old(inode).payload,
        op is SetDeleted ==> final(inode).desc.dtime == Dtime::Time(now),
        op is ClearDeleted ==> final(inode).desc.dtime == Dtime::Time(
            Duration { secs: 0, nanos: 0 },
        ),
        !(op is SetDeleted || op is ClearDeleted) ==> final(inode).desc.dtime == old(
            inode,
        ).desc.dtime,
        op is WriteBack ==> !final(inode).dirty,
        op is StampTimes || op is SetSize ==> final(inode).dirty,
        op is SetDeleted || op is ClearDeleted ==> final(inode).dirty,
        op is StampDatasync && tid is Some ==> final(inode).datasync_tid == tid,
        !(op is StampDatasync) ==> final(inode).datasync_tid == old(inode).datasync_tid,
        !(op is WriteBack) ==> final(inode).sync_tid == old(inode).sync_tid,
        final(inode).ino == old(inode).ino,
        final(inode).desc.type_ == old(inode).desc.type_,
        final(inode).desc.perm == old(inode).desc.perm,
        final(inode).desc.uid == old(inode).desc.uid,
        final(inode).desc.gid == old(inode).desc.gid,
        final(inode).desc.atime == old(inode).desc.atime,
        final(inode).desc.crtime == old(inode).desc.crtime,
        final(inode).desc.link_count == old(inode).desc.link_count,
        final(inode).desc.flags == old(inode).desc.flags,
        final(inode).desc.file_acl == old(inode).desc.file_acl,
        final(inode).desc.generation == old(inode).desc.generation,
        final(inode).desc.block == old(inode).desc.block,
{
}

/// A change of how far the page cache reaches looks at the block where it cuts into
/// a page, and at none where it cuts between pages. If that block is mapped, the
/// page is cut at the byte; otherwise behind the page.
pub proof fn cache_cuts_at_the_smaller_size(
    new: u64,
    old_size: u64,
    r: Result<CacheResize, Error>,
    mapped: bool,
    sizes: (u64, u64),
)
    requires
        new <= 0xFFFF_FFFF * 4096,
        old_size <= 0xFFFF_FFFF * 4096,
        call_ensures(CacheResize::plan, (new, old_size), r),
        call_ensures(CacheResize::sizes, (&r->Ok_0, mapped), sizes),
    ensures
        r is Ok,
        r->Ok_0.new == new,
        r->Ok_0.old == old_size,
        ({
            let cut = if new < old_size {
                new
            } else {
                old_size
            };
            &&& r->Ok_0.probe is None <==> cut % 4096 == 0
            &&& r->Ok_0.probe matches Some(block) ==> block * 4096 < cut < block * 4096 + 4096
        }),
        r->Ok_0.probe is Some && mapped ==> sizes == (new, old_size),
        !(r->Ok_0.probe is Some && mapped) ==> sizes.0 % 4096 == 0 && sizes.1 % 4096 == 0 && new
            <= sizes.0 < new + 4096 && old_size <= sizes.1 < old_size + 4096,
{
}

/// A write to a directory is refused, and so is one whose end is no offset. An
/// empty write does nothing. With a journal, one from the end of the file on is an
/// append.
pub proof fn writes_are_sorted(
    inode: Inode,
    offset: u64,
    len: u64,
    max_credits: Option<usize>,
    max_file_size: u64,
    r: Result<WritePlan, Error>,
)
    requires
        call_ensures(Inode::write_at, (&inode, offset, len, max_credits, max_file_size), r),
    ensures
        inode.desc.type_ == InodeType::Dir <==> r == Err::<WritePlan, Error>(Error::IsDirectory),
        inode.desc.type_ != InodeType::Dir && len == 0 <==> r == Ok::<WritePlan, Error>(
            WritePlan::Nothing,
        ),
        inode.desc.type_ != InodeType::Dir && offset + len > u64::MAX && len > 0 <==> r == Err::<
            WritePlan,
            Error,
        >(Error::RangeOverflow),
        // Whatever is within the limits is written.
        inode.desc.type_ == InodeType::File && inode.payload is DataBacked && len > 0 && offset
            + len <= max_file_size && offset + len <= 0xFFF_FFFF_F000 ==> {
            &&& r is Ok
            &&& max_credits is Some && offset >= inode.desc.size ==> r->Ok_0 is Append
            &&& max_credits is None || offset < inode.desc.size ==> (r->Ok_0 matches
                WritePlan::Single(plan) && plan.fault is None)
        },
        r matches Ok(WritePlan::Append(append)) ==> {
            &&& append.offset == offset
            &&& append.end == offset + len
            &&& append.written == 0
            &&& append.cursor * 4096 <= offset < append.cursor * 4096 + 4096
            &&& append.stop * 4096 - 4096 < append.end <= append.stop * 4096
            &&& Some(append.max_credits) == max_credits
            &&& append.max_file_size == max_file_size
            &&& offset >= inode.desc.size
        },
        // An append is refused for its range, or for want of blocks.
        r matches Ok(WritePlan::Refused(e)) ==> max_credits is Some && offset >= inode.desc.size && (
        offset + len > 0xFFFF_FFFF * 4096 && e == Error::BlockIndexTooWide || !(
        inode.payload is DataBacked) && e == Error::NoBlockManager),
        r matches Ok(WritePlan::Single(plan)) ==> (plan.fault matches Some(e) ==> {
            &&& inode.payload is DataBacked ==> e == Error::SizeLimit || e
                == Error::BlockIndexTooWide
            &&& e == Error::BlockIndexTooWide <==> offset + len > 0xFFFF_FFFF * 4096
            &&& e == Error::SizeLimit ==> offset + len > inode.desc.size
            &&& e == Error::NoPageCache ==> !(inode.payload is DataBacked) && offset + len
                > inode.desc.size
            &&& e == Error::NoBlockManager ==> !(inode.payload is DataBacked) && offset + len
                <= inode.desc.size
        }),
        r matches Ok(WritePlan::Single(plan)) ==> (!(inode.payload is DataBacked)
            ==> plan.fault is Some),
        // No write takes a file past its limit.
        r matches Ok(WritePlan::Single(plan)) ==> (offset + len > inode.desc.size && offset + len > (
        if inode.desc.type_ == InodeType::File {
            max_file_size as int
        } else {
            0xFFFF_FFFF
        }) ==> plan.fault is Some),
{
}

/// After a write the times are those of the write, the size reaches to its end, the
/// page cache to the size, and the bytes were written where they belong, into blocks
/// that were mapped before and are marked as written after. With a journal its
/// transaction carries the inode. If the write fails, the size stays and what was
/// mapped behind it is freed.
pub proof fn writes_take_effect(
    inode: Inode,
    offset: u64,
    len: u64,
    max_credits: Option<usize>,
    max_file_size: u64,
    r: Result<WritePlan, Error>,
    now: Duration,
    tid: Option<Tid>,
    seen: Seq<ExtentSnapshot>,
)
    requires
        call_ensures(Inode::write_at, (&inode, offset, len, max_credits, max_file_size), r),
        cache_reaches(inode, inode.desc.size),
    ensures
        r matches Ok(WritePlan::Single(plan)) ==> (plan.fault is None ==> {
            let end = (offset + len) as u64;
            let after = after_ops(inode, plan.body@ + plan.after@, now, tid, seen);
            &&& stamped_now(after, now)
            &&& after.desc.size == if end > inode.desc.size {
                end
            } else {
                inode.desc.size
            }
            &&& cache_reaches(after, after.desc.size)
            &&& max_credits is Some && tid is Some ==> carried_by(after, tid->0)
            &&& exists|i: int|
                0 <= i < plan.body@.len() && #[trigger] plan.body@[i] == (FileOp::WritePages {
                    start: offset,
                    end,
                })
            &&& forall|i: int|
                0 <= i < plan.body@.len() ==> (#[trigger] plan.body@[i] matches FileOp::WritePages {
                    start,
                    end: to,
                } ==> start == offset && to == end)
            &&& forall|i: int|
                0 <= i < plan.body@.len() ==> (#[trigger] plan.body@[i] matches FileOp::Allocate {
                    first,
                    stop,
                } ==> first * 4096 <= offset < first * 4096 + 4096 && stop * 4096 - 4096 < end
                    <= stop * 4096)
            &&& exists|i: int| 0 <= i < plan.body@.len() && #[trigger] plan.body@[i] is Allocate
            &&& exists|i: int| 0 <= i < plan.body@.len() && #[trigger] plan.body@[i] is MarkWritten
        }),
        r matches Ok(WritePlan::Single(plan)) ==> {
            let after = after_ops(inode, plan.rollback@, now, tid, seen);
            &&& after.desc == inode.desc
            &&& cache_reaches(after, inode.desc.size)
            &&& forall|i: int|
                0 <= i < plan.rollback@.len() ==> plan.rollback@[i] == (FileOp::Truncate {
                    size: inode.desc.size,
                }) || #[trigger] plan.rollback@[i] is ResizeCache
            &&& offset + len > inode.desc.size && inode.payload is DataBacked
                ==> plan.rollback@.len() > 0 && plan.rollback@.last() == (FileOp::Truncate {
                size: inode.desc.size,
            })
        },
        // With a journal the data is on the disk before the blocks can be found.
        r matches Ok(WritePlan::Single(plan)) ==> (max_credits is Some ==> exists|i: int|
            0 <= i < plan.after@.len() && #[trigger] plan.after@[i] is RegisterOrdered),
{
    match r {
        Ok(WritePlan::Single(plan)) => {
            let end = (offset + len) as u64;
            let rollback = plan.rollback@;
            assert forall|i: int| 0 <= i < rollback.len() implies !(#[trigger] rollback[i] is SetSize)
                by {}
            lemma_cache_after(inode, rollback, now, tid, inode.desc.size, seen);
            lemma_plain_after(inode, rollback, now, tid, seen);
            if max_credits is Some {
                assert(plan.after@[2] is RegisterOrdered);
            }
            if plan.fault is None {
                let body = plan.body@;
                let steps = body + plan.after@;
                let k = if end > inode.desc.size {
                    1int
                } else {
                    0
                };
                assert(body[k] is Allocate);
                assert(body[k + 1] == FileOp::WritePages { start: offset, end });
                assert(body[k + 2] is MarkWritten);
                assert(steps[k + 3] is StampTimes);
                lemma_stamped_after(inode, steps, now, tid, seen);
                if max_credits is Some && tid is Some {
                    let w = body.len() as int;
                    assert(steps[w] is WriteBack);
                    assert(steps[w + 1] is StampDatasync);
                    assert(steps[w + 2] is RegisterOrdered);
                    lemma_carried_after(inode, steps, now, tid->0, seen, k + 3, w);
                }
                if end > inode.desc.size {
                    assert(steps[0] is ResizeCache);
                    assert(steps[5] == FileOp::SetSize { size: end });
                    lemma_size_after(inode, steps, now, tid, end, seen);
                    lemma_cache_after(inode, steps, now, tid, end, seen);
                } else {
                    lemma_size_after(inode, steps, now, tid, inode.desc.size, seen);
                    lemma_cache_after(inode, steps, now, tid, inode.desc.size, seen);
                }
            }
        },
        _ => {},
    }
}

/// Steps that set neither a size nor a time leave the content as it is.
pub proof fn lemma_plain_after(
    inode: Inode,
    ops: Seq<FileOp>,
    now: Duration,
    tid: Option<Tid>,
    seen: Seq<ExtentSnapshot>,
)
    requires
        forall|i: int|
            0 <= i < ops.len() ==> #[trigger] ops[i] is ResizeCache || ops[i] is Truncate
                || ops[i] is TruncateChunk,
    ensures
        after_ops(inode, ops, now, tid, seen).desc == inode.desc,
    decreases ops.len(),
{
    if ops.len() > 0 {
        let init = ops.drop_last();
        assert forall|i: int| 0 <= i < init.len() implies #[trigger] init[i] is ResizeCache
            || init[i] is Truncate || init[i] is TruncateChunk by {
            assert(init[i] == ops[i]);
        }
        lemma_plain_after(inode, init, now, tid, seen);
        assert(ops[ops.len() - 1] == ops.last());
    }
}

/// Where a chunk ends that reached the block `reached`: behind that many blocks,
/// or where the append ends.
pub open spec fn reaches_to(append: AppendWrite, reached: u32, at: u64) -> bool {
    &&& at <= append.end
    &&& at <= reached * 4096
    &&& at == append.end || at == reached * 4096
}

/// After a chunk of an append the times are those of the write, the size is where
/// the chunk ends, and the page cache reaches to it. A chunk that would pass the
/// limit is refused. Where no block could be mapped, a transaction with the room
/// that the next one needs is asked for the rest of the blocks.
pub proof fn chunks_take_effect(
    append: AppendWrite,
    inode: Inode,
    fill: HoleFill,
    step: FillStep,
    now: Duration,
    tid: Option<Tid>,
    seen: Seq<ExtentSnapshot>,
)
    requires
        append.wf(),
        append.fits(inode),
        append.cursor < append.stop,
        fill matches HoleFill::Stopped { reached, .. } ==> append.cursor <= reached <= append.stop,
        call_ensures(AppendWrite::on_fill, (&append, &inode, fill), step),
    ensures
        step is Chunk <==> !(fill matches HoleFill::Stopped { reached, .. } && reached
            == append.cursor),
        step matches FillStep::Chunk { reached, fault, body } ==> {
            let after = after_ops(inode, body@, now, tid, seen);
            &&& fill is Filled ==> reached == append.stop
            &&& fill is Stopped ==> reached == fill->reached
            &&& reaches_to(append, reached, after.desc.size) <==> fault is None
            &&& fault is None ==> {
                &&& stamped_now(after, now)
                &&& after.desc.size > inode.desc.size
                &&& inode.desc.type_ == InodeType::File ==> after.desc.size <= append.max_file_size
                &&& cache_reaches(after, after.desc.size)
                &&& exists|i: int| 0 <= i < body@.len() && #[trigger] body@[i] is WritePages
                &&& exists|i: int| 0 <= i < body@.len() && #[trigger] body@[i] is MarkWritten
                &&& forall|i: int|
                    0 <= i < body@.len() ==> (#[trigger] body@[i] matches FileOp::WritePages {
                        start,
                        end,
                    } ==> end == after.desc.size && start >= append.offset && start
                        >= append.cursor * 4096 && (start == append.offset || start == append.cursor
                        * 4096))
            }
            &&& fault matches Some(e) ==> e == Error::SizeLimit && body@.len() == 0
            &&& inode.desc.type_ == InodeType::File && reached * 4096 <= append.max_file_size
                ==> fault is None
            &&& inode.desc.type_ == InodeType::File && append.end <= append.max_file_size
                ==> fault is None
        },
        step matches FillStep::Retry(ops) ==> {
            &&& fill->need <= append.max_credits
            &&& ops@.len() > 1
            &&& ops@[0] == (FileOp::Restart { credits: fill->need })
            &&& ops@.last() == (FileOp::AllocateChunk { first: append.cursor, stop: append.stop })
        },
        step matches FillStep::Over(result) ==> {
            &&& fill->need > append.max_credits
            &&& append.written > 0 ==> result == Ok::<u64, Error>(append.written)
            &&& append.written == 0 ==> result == Err::<u64, Error>(Error::InsertExceedsTransaction)
        },
{
    match step {
        FillStep::Chunk { reached, fault, body } => {
            if fault is None {
                let ops = body@;
                let end = if append.end < reached * 4096 {
                    append.end
                } else {
                    (reached * 4096) as u64
                };
                assert(ops.len() == 5);
                assert(ops[0] is ResizeCache);
                assert(ops[1] is WritePages);
                assert(ops[2] is MarkWritten);
                assert(ops[3] is StampTimes);
                assert(ops[4] == FileOp::SetSize { size: end });
                lemma_stamped_after(inode, ops, now, tid, seen);
                lemma_size_after(inode, ops, now, tid, end, seen);
                lemma_cache_after(inode, ops, now, tid, end, seen);
            } else {
                assert(body@.len() == 0);
                assert(after_ops(inode, body@, now, tid, seen) == inode);
            }
        },
        _ => {},
    }
}

/// The blocks that an append asks for are those that it has not written yet.
pub proof fn appends_ask_for_the_rest(append: AppendWrite, ops: Vec<FileOp>, done: bool)
    requires
        append.wf(),
        call_ensures(AppendWrite::request, (&append,), ops),
        call_ensures(AppendWrite::is_done, (&append,), done),
    ensures
        ops@.len() > 0,
        ops@.last() == (FileOp::AllocateChunk { first: append.cursor, stop: append.stop }),
        forall|i: int|
            0 <= i < ops@.len() - 1 ==> #[trigger] ops@[i] == FileOp::EnsureCredits(Reserve::Write),
        done ==> append.offset + append.written == append.end,
        !done ==> append.offset + append.written < append.end,
{
}

/// When a chunk is written, it is counted as far as it came, its inode and its
/// data belong to its transaction, and the rest is asked for.
pub proof fn finished_chunks_are_counted(
    append: &mut AppendWrite,
    reached: u32,
    ops: Vec<FileOp>,
    inode: Inode,
    now: Duration,
    tid: Tid,
    seen: Seq<ExtentSnapshot>,
)
    requires
        old(append).wf(),
        old(append).cursor < reached <= old(append).stop,
        call_ensures(AppendWrite::chunk_done, (append, reached), ops),
        inode.dirty,
    ensures
        final(append).cursor == reached,
        final(append).offset == old(append).offset,
        final(append).end == old(append).end,
        final(append).stop == old(append).stop,
        final(append).max_credits == old(append).max_credits,
        final(append).max_file_size == old(append).max_file_size,
        reaches_to(
            *old(append),
            reached,
            (final(append).offset + final(append).written) as u64,
        ),
        final(append).written > old(append).written,
        exists|i: int| 0 <= i < ops@.len() && #[trigger] ops@[i] is RegisterOrdered,
        ({
            let after = after_ops(inode, ops@, now, Some(tid), seen);
            &&& !after.dirty
            &&& after.sync_tid == Some(tid)
            &&& after.datasync_tid == Some(tid)
        }),
        reached < old(append).stop ==> ops@.last() == (FileOp::AllocateChunk {
            first: reached,
            stop: old(append).stop,
        }),
        reached >= old(append).stop ==> forall|i: int|
            0 <= i < ops@.len() ==> !(#[trigger] ops@[i] is AllocateChunk),
{
    let steps = ops@;
    assert(steps[0] is WriteBack);
    assert(steps[1] is StampDatasync);
    assert(steps[2] is RegisterOrdered);
    reveal_with_fuel(after_ops, 6);
    if reached < old(append).stop {
        assert(steps.len() == 5);
        assert(steps.drop_last().drop_last().drop_last() =~= steps.take(2));
        assert(steps.drop_last()[3] == steps[3]);
    } else {
        assert(steps.len() == 3);
    }
}

/// An append that fails in a chunk gives what the chunks before have written, or
/// the error if there were none, and frees what was mapped behind the file.
pub proof fn failed_chunks_are_undone(
    append: AppendWrite,
    inode: Inode,
    e: Error,
    r: (Vec<FileOp>, Result<u64, Error>),
    now: Duration,
    tid: Option<Tid>,
    seen: Seq<ExtentSnapshot>,
)
    requires
        append.wf(),
        append.fits(inode),
        append.cursor < append.stop,
        cache_reaches(inode, inode.desc.size),
        call_ensures(AppendWrite::chunk_failed, (&append, &inode, e), r),
    ensures
        append.written > 0 ==> r.1 == Ok::<u64, Error>(append.written),
        append.written == 0 ==> r.1 == Err::<u64, Error>(e),
        after_ops(inode, r.0@, now, tid, seen).desc == inode.desc,
        cache_reaches(after_ops(inode, r.0@, now, tid, seen), inode.desc.size),
        r.0@.len() > 0,
        r.0@.last() == (FileOp::Truncate { size: inode.desc.size }),
        forall|i: int|
            0 <= i < r.0@.len() - 1 ==> #[trigger] r.0@[i] is ResizeCache && r.0@[i]->ResizeCache_0.new
                == inode.desc.size,
{
    lemma_cache_after(inode, r.0@, now, tid, inode.desc.size, seen);
    lemma_plain_after(inode, r.0@, now, tid, seen);
}

} // verus!
