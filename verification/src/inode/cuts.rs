//! What shrinking a file cuts off, over however many transactions: the blocks
//! past its end, all of them, and nothing else.

use vstd::prelude::*;

use crate::error::Error;
use crate::inode::content::{Content, Surroundings};
use crate::inode::desc::InodeType;
use crate::inode::effects::{
    cache_reaches, carried_by, lemma_cache_after, lemma_carried_after, lemma_stamped_after,
    stamped_now,
};
use crate::inode::node::{ExtentSnapshot, Inode};
use crate::inode::ops::{after_ops, lemma_size_after, FileOp, Reserve};
use crate::inode::resize::{
    block_count, finished, free_run, goes_on, steps_after_chunk, FreeLoop, FreedChunk,
    Plan, ResizePlan, ShrinkEstimate,
};
use crate::inode::time::Duration;
use crate::journal::tid::Tid;

verus! {

/// Whether `n` blocks are just enough for `size` bytes.
pub open spec fn holds_just(n: int, size: int) -> bool {
    size <= n * 4096 < size + 4096
}

/// A number of blocks is just enough for the bytes. It is given whenever it has 32
/// bits.
pub proof fn blocks_hold_just_the_bytes(size: u64, r: Result<u32, Error>)
    requires
        call_ensures(block_count, (size,), r),
    ensures
        r matches Ok(n) ==> holds_just(n as int, size as int),
        r matches Err(e) ==> e == Error::BlockIndexTooWide,
        r is Ok <==> size <= 0xFFFF_FFFF * 4096,
{
}

/// How often steps free a chunk.
pub open spec fn chunks_asked(ops: Seq<FileOp>) -> nat
    decreases ops.len(),
{
    if ops.len() == 0 {
        0
    } else {
        chunks_asked(ops.drop_last()) + (if ops.last() is TruncateChunk {
            1
        } else {
            0nat
        })
    }
}

/// The content after steps of which each chunk frees what `chunks` tells in turn:
/// from the end of the file on down to the block that was reached, but no block of
/// the size that the step names.
pub open spec fn after_run(
    content: Content,
    ops: Seq<FileOp>,
    chunks: Seq<FreedChunk>,
    around: Surroundings,
) -> Content
    decreases ops.len(),
{
    if ops.len() == 0 {
        content
    } else {
        let before = after_run(content, ops.drop_last(), chunks, around);
        let k = chunks_asked(ops.drop_last()) as int;
        match ops.last() {
            FileOp::TruncateChunk { size } => if k < chunks.len() {
                before.truncated(
                    if chunks[k].reached * 4096 < size {
                        (size + 4095) / 4096
                    } else {
                        chunks[k].reached as int
                    },
                )
            } else {
                before
            },
            op => before.after(op, around),
        }
    }
}

/// Whether a step frees nothing below `n` blocks, or moves the page cache where the
/// bytes below `size` are not touched, or changes no data at all.
pub open spec fn cuts_behind(op: FileOp, n: int, size: int) -> bool {
    match op {
        FileOp::Truncate { size: to } => holds_just(n, to as int),
        FileOp::TruncateChunk { size: to } => holds_just(n, to as int),
        FileOp::ResizeCache(resize) => resize.new == size && resize.new <= resize.old && (
        resize.probe matches Some(block) ==> block == size / 4096),
        FileOp::WritePages { .. }
        | FileOp::Allocate { .. }
        | FileOp::AllocateChunk { .. }
        | FileOp::MarkWritten { .. }
        | FileOp::PunchRange { .. }
        | FileOp::PunchChunk { .. }
        | FileOp::ZeroIfMapped { .. } => false,
        _ => true,
    }
}

/// Whether all steps cut behind the size.
pub open spec fn all_cut_behind(ops: Seq<FileOp>, n: int, size: int) -> bool {
    forall|i: int| 0 <= i < ops.len() ==> cuts_behind(#[trigger] ops[i], n, size)
}

/// Whether `after` has the bytes of `before` up to `size`, and of its blocks those
/// below `n` where they were, and no new ones.
pub open spec fn front_kept(before: Content, after: Content, n: int, size: int) -> bool {
    &&& forall|p: int| 0 <= p < size ==> #[trigger] after.byte(p) == before.byte(p)
    &&& forall|b: int|
        #[trigger] after.places.dom().contains(b) ==> before.places.dom().contains(b)
            && after.places[b] == before.places[b]
    &&& forall|b: int|
        b < n ==> after.places.dom().contains(b) == #[trigger] before.places.dom().contains(b)
    &&& forall|b: int| b < n ==> after.written.contains(b) == #[trigger] before.written.contains(b)
}

proof fn lemma_front_kept(
    content: Content,
    ops: Seq<FileOp>,
    chunks: Seq<FreedChunk>,
    around: Surroundings,
    n: int,
    size: int,
)
    requires
        0 <= size <= u64::MAX,
        holds_just(n, size),
        all_cut_behind(ops, n, size),
    ensures
        front_kept(content, after_run(content, ops, chunks, around), n, size),
    decreases ops.len(),
{
    if ops.len() > 0 {
        let init = ops.drop_last();
        assert(all_cut_behind(init, n, size)) by {
            assert forall|i: int| 0 <= i < init.len() implies cuts_behind(
                #[trigger] init[i],
                n,
                size,
            ) by {
                assert(init[i] == ops[i]);
            }
        }
        lemma_front_kept(content, init, chunks, around, n, size);
        assert(cuts_behind(ops[ops.len() - 1], n, size));
        let before = after_run(content, init, chunks, around);
        let after = after_run(content, ops, chunks, around);
        assert forall|p: int| 0 <= p < size implies #[trigger] after.byte(p) == before.byte(p) by {
            assert(p / 4096 < n);
        }
        assert forall|p: int| 0 <= p < size implies #[trigger] after.byte(p) == content.byte(p) by {
            assert(before.byte(p) == content.byte(p));
        }
    }
}

proof fn lemma_cut_off(
    content: Content,
    ops: Seq<FileOp>,
    chunks: Seq<FreedChunk>,
    around: Surroundings,
    n: int,
    size: int,
    k: int,
)
    requires
        0 <= size <= u64::MAX,
        holds_just(n, size),
        all_cut_behind(ops, n, size),
        (exists|i: int| 0 <= i < ops.len() && #[trigger] ops[i] is Truncate) || 0 <= k
            < chunks_asked(ops) && k < chunks.len() && chunks[k].reached <= n,
    ensures
        forall|b: int| #[trigger]
            after_run(content, ops, chunks, around).places.dom().contains(b) ==> b < n,
    decreases ops.len(),
{
    let init = ops.drop_last();
    let last = ops[ops.len() - 1];
    assert(cuts_behind(last, n, size));
    assert(all_cut_behind(init, n, size)) by {
        assert forall|i: int| 0 <= i < init.len() implies cuts_behind(#[trigger] init[i], n, size)
            by {
            assert(init[i] == ops[i]);
        }
    }
    if last is Truncate {
    } else if last is TruncateChunk && chunks_asked(init) == k && k < chunks.len()
        && chunks[k].reached <= n {
    } else {
        if exists|i: int| 0 <= i < ops.len() && #[trigger] ops[i] is Truncate {
            let i = choose|i: int| 0 <= i < ops.len() && #[trigger] ops[i] is Truncate;
            assert(init[i] is Truncate);
        }
        lemma_cut_off(content, init, chunks, around, n, size, k);
        let before = after_run(content, init, chunks, around);
        let after = after_run(content, ops, chunks, around);
        assert forall|b: int| #[trigger] after.places.dom().contains(b) implies b < n by {
            assert(before.places.dom().contains(b));
        }
    }
}

proof fn lemma_asked_adds(a: Seq<FileOp>, b: Seq<FileOp>)
    ensures
        chunks_asked(a + b) == chunks_asked(a) + chunks_asked(b),
    decreases b.len(),
{
    if b.len() == 0 {
        assert(a + b =~= a);
    } else {
        assert((a + b).drop_last() =~= a + b.drop_last());
        lemma_asked_adds(a, b.drop_last());
    }
}

proof fn lemma_run_cuts(
    front: Seq<FileOp>,
    free: FreeLoop,
    chunks: Seq<FreedChunk>,
    n: int,
    size: int,
)
    requires
        holds_just(n, free.size as int),
        all_cut_behind(front, n, size),
        goes_on(free, chunks),
        chunks_asked(front) == 1,
    ensures
        all_cut_behind(free_run(front, free, chunks), n, size),
        chunks_asked(free_run(front, free, chunks)) >= chunks.len(),
        !finished(free, chunks) ==> chunks_asked(free_run(front, free, chunks)) == chunks.len() + 1,
    decreases chunks.len(),
{
    if chunks.len() > 0 {
        let init = chunks.drop_last();
        assert(goes_on(free, init)) by {
            assert forall|i: int| 0 <= i < init.len() - 1 implies (#[trigger] init[i]).reached
                > free.keep by {
                assert(init[i] == chunks[i]);
            }
        }
        if init.len() > 0 {
            assert(init.last() == chunks[init.len() - 1]);
        }
        lemma_run_cuts(front, free, init, n, size);
        let run = free_run(front, free, init);
        let steps = steps_after_chunk(free, chunks.last());
        lemma_asked_adds(run, steps);
        reveal_with_fuel(chunks_asked, 4);
        assert(steps.len() == 3);
        assert(steps.drop_last().drop_last().drop_last() =~= seq![]);
        assert forall|i: int| 0 <= i < (run + steps).len() implies cuts_behind(
            #[trigger] (run + steps)[i],
            n,
            size,
        ) by {
            if i < run.len() {
                assert((run + steps)[i] == run[i]);
            } else {
                assert((run + steps)[i] == steps[i - run.len()]);
            }
        }
    }
}

/// Finishing an interrupted shrink to `target` frees the blocks past `target`, all
/// of them when it came to its end, and nothing else: the bytes before `target`
/// stay as they are, and so do the size and the times. Each of its steps that frees
/// blocks names a size that needs as many blocks as `target`.
pub proof fn retruncation_keeps_the_file(
    inode: Inode,
    target: u64,
    journaled: bool,
    r: (Plan, FreeLoop),
    chunks: Seq<FreedChunk>,
    content: Content,
    around: Surroundings,
    now: Duration,
    tid: Option<Tid>,
    seen: Seq<ExtentSnapshot>,
)
    requires
        call_ensures(Inode::retruncate_to, (&inode, target, journaled), r),
        r.0.fault is None,
        journaled || chunks.len() == 0,
        goes_on(r.1, chunks),
    ensures
        ({
            let run = free_run(r.0.ops@, r.1, chunks);
            let after = after_run(content, run, chunks, around);
            let n = (target + 4095) / 4096;
            &&& holds_just(r.1.keep as int, target as int)
            &&& r.1.size == target
            &&& begins_with(r.0.ops@, Reserve::Truncate)
            &&& forall|i: int|
                0 <= i < run.len() ==> (#[trigger] run[i] matches FileOp::TruncateChunk { size }
                    ==> (size + 4095) / 4096 == n)
            &&& forall|i: int|
                0 <= i < run.len() ==> (#[trigger] run[i] matches FileOp::Truncate { size } ==> (
                size + 4095) / 4096 == n)
            &&& front_kept(content, after, n, target as int)
            &&& !journaled || finished(r.1, chunks) ==> forall|b: int| #[trigger]
                after.places.dom().contains(b) ==> b < n
            &&& after_ops(inode, run, now, tid, seen).desc.size == inode.desc.size
            &&& after_ops(inode, run, now, tid, seen).desc.mtime == inode.desc.mtime
            &&& after_ops(inode, run, now, tid, seen).desc.ctime == inode.desc.ctime
        }),
{
    let front = r.0.ops@;
    let run = free_run(front, r.1, chunks);
    let n = (target + 4095) / 4096;
    assert(holds_just(n, target as int));
    reveal_with_fuel(chunks_asked, 8);
    assert(front[1] is BeginOp);
    if journaled {
        assert(front.len() == 3);
        assert(front.drop_last().drop_last().drop_last() =~= seq![]);
        lemma_run_cuts(front, r.1, chunks, n, target as int);
    } else {
        assert(front[2] is Truncate);
        assert(run == front);
    }
    assert(all_cut_behind(run, n, target as int));
    lemma_front_kept(content, run, chunks, around, n, target as int);
    if !journaled || finished(r.1, chunks) {
        lemma_cut_off(content, run, chunks, around, n, target as int, chunks.len() - 1);
    }
    assert forall|i: int| 0 <= i < run.len() implies (#[trigger] run[i] matches
        FileOp::TruncateChunk { size } ==> (size + 4095) / 4096 == n) by {
        assert(cuts_behind(run[i], n, target as int));
    }
    assert forall|i: int| 0 <= i < run.len() implies (#[trigger] run[i] matches FileOp::Truncate {
        size,
    } ==> (size + 4095) / 4096 == n) by {
        assert(cuts_behind(run[i], n, target as int));
    }
    lemma_run_unstamped(front, r.1, chunks);
    lemma_unstamped(inode, run, now, tid, seen);
}

/// A shrink over many transactions does as much as one in a single transaction: it
/// frees the blocks past the new size, all of them when it came to its end, keeps
/// the bytes before it, and has the new size from the start.
pub proof fn chunked_shrink_keeps_the_front(
    inode: Inode,
    new_size: u64,
    max_file_size: u64,
    max_credits: usize,
    estimate: ShrinkEstimate,
    plan: Plan,
    free: FreeLoop,
    chunks: Seq<FreedChunk>,
    content: Content,
    around: Surroundings,
    now: Duration,
    tid: Option<Tid>,
    seen: Seq<ExtentSnapshot>,
)
    requires
        new_size < inode.desc.size,
        inode.payload is DataBacked,
        call_ensures(
            Inode::resize,
            (&inode, new_size, true, max_file_size, max_credits, Some(estimate)),
            Ok::<ResizePlan, Error>(ResizePlan::Chunked(plan, free)),
        ),
        plan.fault is None,
        goes_on(free, chunks),
    ensures
        ({
            let run = free_run(plan.ops@, free, chunks);
            let after = after_run(content, run, chunks, around);
            let last = after_ops(inode, run, now, tid, seen);
            let n = (new_size + 4095) / 4096;
            &&& holds_just(free.keep as int, new_size as int)
            &&& all_cut_behind(run, n, new_size as int)
            &&& front_kept(content, after, n, new_size as int)
            &&& finished(free, chunks) ==> forall|b: int| #[trigger]
                after.places.dom().contains(b) ==> b < n
            &&& last.desc.size == new_size
            &&& cache_reaches(last, new_size)
            &&& tail_is_flushed_first(plan.ops@, new_size, inode.desc.size)
            &&& exists|i: int| 0 <= i < plan.ops@.len() && #[trigger] plan.ops@[i] is RegisterOrdered
            &&& begins_with(plan.ops@, Reserve::Truncate)
        }),
{
    let front = plan.ops@;
    let run = free_run(front, free, chunks);
    let n = (new_size + 4095) / 4096;
    assert(holds_just(n, new_size as int));
    reveal_with_fuel(chunks_asked, 10);
    assert(front.len() == 8);
    assert(front[7] is TruncateChunk);
    assert(chunks_asked(front) == 1) by {
        assert(front.drop_last() =~= front.take(7));
        assert(front.take(7).drop_last() =~= front.take(6));
        assert(front.take(6).drop_last() =~= front.take(5));
        assert(front.take(5).drop_last() =~= front.take(4));
        assert(front.take(4).drop_last() =~= front.take(3));
        assert(front.take(3).drop_last() =~= front.take(2));
        assert(front.take(2).drop_last() =~= front.take(1));
        assert(front.take(1).drop_last() =~= seq![]);
    }
    lemma_run_cuts(front, free, chunks, n, new_size as int);
    lemma_front_kept(content, run, chunks, around, n, new_size as int);
    if finished(free, chunks) {
        lemma_cut_off(content, run, chunks, around, n, new_size as int, chunks.len() - 1);
    }
    lemma_run_starts(front, free, chunks, new_size);
    assert(front[0] is FlushPages);
    assert(front[1] is ResizeCache);
    assert(front[2] == FileOp::SetSize { size: new_size });
    assert(front[3] is BeginOp);
    assert(front[6] is RegisterOrdered);
    assert(run[1] == front[1] && run[2] == front[2]);
    lemma_size_after(inode, run, now, tid, new_size, seen);
    assert forall|i: int| 0 <= i < run.len() && #[trigger] run[i] is ResizeCache implies run[
        i]->ResizeCache_0.new == new_size by {
        assert(cuts_behind(run[i], n, new_size as int));
    }
    lemma_cache_after(inode, run, now, tid, new_size, seen);
}

/// Whether steps join a transaction with this room, and with no other.
pub open spec fn begins_with(ops: Seq<FileOp>, reserve: Reserve) -> bool {
    &&& exists|i: int| 0 <= i < ops.len() && #[trigger] ops[i] is BeginOp
    &&& forall|i: int|
        0 <= i < ops.len() && #[trigger] ops[i] is BeginOp ==> ops[i] == FileOp::BeginOp(reserve)
}

/// Whether the pages of what is cut off are written before they are dropped.
pub open spec fn tail_is_flushed_first(ops: Seq<FileOp>, new_size: u64, old_size: u64) -> bool {
    exists|i: int, j: int|
        0 <= i < j < ops.len() && #[trigger] ops[i] is FlushPages && #[trigger] ops[j] is ResizeCache
            && ops[i]->FlushPages_start % 4096 == 0 && ops[i]->FlushPages_start <= new_size
            < ops[i]->FlushPages_start + 4096 && ops[i]->FlushPages_end == old_size
}

proof fn lemma_run_starts(
    front: Seq<FileOp>,
    free: FreeLoop,
    chunks: Seq<FreedChunk>,
    size: u64,
)
    requires
        forall|i: int|
            0 <= i < front.len() ==> !(#[trigger] front[i] is SetSize) || front[i] == (
            FileOp::SetSize { size }),
    ensures
        free_run(front, free, chunks).len() >= front.len(),
        forall|i: int|
            0 <= i < front.len() ==> #[trigger] free_run(front, free, chunks)[i] == front[i],
        forall|i: int|
            0 <= i < free_run(front, free, chunks).len() ==> !(#[trigger] free_run(
                front,
                free,
                chunks,
            )[i] is SetSize) || free_run(front, free, chunks)[i] == (FileOp::SetSize { size }),
    decreases chunks.len(),
{
    if chunks.len() > 0 {
        lemma_run_starts(front, free, chunks.drop_last(), size);
    }
}

/// A change of the size that is refused: of a directory, or where one step of a
/// shrink would need more room than any transaction has. It is split exactly where
/// it needs more room than one transaction has.
pub proof fn resizes_are_sorted(
    inode: Inode,
    new_size: u64,
    journaled: bool,
    max_file_size: u64,
    max_credits: usize,
    estimate: Option<ShrinkEstimate>,
    wanted: bool,
    r: Result<ResizePlan, Error>,
)
    requires
        call_ensures(Inode::needs_shrink_estimate, (&inode, new_size, journaled), wanted),
        wanted == (estimate is Some),
        call_ensures(
            Inode::resize,
            (&inode, new_size, journaled, max_file_size, max_credits, estimate),
            r,
        ),
    ensures
        wanted <==> new_size < inode.desc.size && journaled && inode.payload is DataBacked,
        inode.desc.type_ == InodeType::Dir <==> r == Err::<ResizePlan, Error>(Error::IsDirectory),
        r == Err::<ResizePlan, Error>(Error::ShrinkExceedsTransaction) <==> inode.desc.type_
            != InodeType::Dir && estimate is Some && estimate->0.whole_estimate > max_credits
            && estimate->0.floor_efbig,
        r is Err ==> r->Err_0 == Error::IsDirectory || r->Err_0 == Error::ShrinkExceedsTransaction,
        r is Ok ==> (r->Ok_0 is Chunked <==> estimate is Some && estimate->0.whole_estimate
            > max_credits),
        // Whatever is within the limits is done.
        r matches Ok(ResizePlan::Whole(plan)) ==> (inode.payload is DataBacked && inode.desc.size
            <= 0xFFFF_FFFF * 4096 && (new_size <= inode.desc.size || inode.desc.type_
            == InodeType::File && new_size <= max_file_size) ==> plan.fault is None),
        r matches Ok(ResizePlan::Chunked(plan, _)) ==> (inode.desc.size <= 0xFFFF_FFFF * 4096
            ==> plan.fault is None),
        r matches Ok(ResizePlan::Whole(plan)) ==> (!(inode.payload is DataBacked) && new_size
            < inode.desc.size ==> plan.fault == Some(Error::NoPageCache)),
        r matches Ok(ResizePlan::Whole(plan)) ==> (!(inode.payload is DataBacked) && new_size
            > inode.desc.size ==> plan.fault is Some),
{
}

/// A change of the size in one transaction leaves the file at the size, with the
/// page cache reaching to it, and stamps its times if the size changes; with a journal
/// its transaction carries the inode. The page cache
/// never reaches further than the file, so a larger file comes before a larger page
/// cache and a smaller one behind a smaller. A shrink
/// frees the blocks past the size and no others, once the pages of what is cut off
/// were written; an extension maps and frees nothing. One past the limit changes
/// nothing.
pub proof fn resizes_take_effect(
    inode: Inode,
    new_size: u64,
    journaled: bool,
    max_file_size: u64,
    max_credits: usize,
    estimate: Option<ShrinkEstimate>,
    plan: Plan,
    content: Content,
    around: Surroundings,
    now: Duration,
    tid: Option<Tid>,
    seen: Seq<ExtentSnapshot>,
)
    requires
        call_ensures(
            Inode::resize,
            (&inode, new_size, journaled, max_file_size, max_credits, estimate),
            Ok::<ResizePlan, Error>(ResizePlan::Whole(plan)),
        ),
        cache_reaches(inode, inode.desc.size),
    ensures
        ({
            let after = after_ops(inode, plan.ops@, now, tid, seen);
            let left = content.after_all(plan.ops@, around);
            let n = (new_size + 4095) / 4096;
            &&& begins_with(plan.ops@, Reserve::Truncate)
            &&& plan.fault is None ==> {
                &&& after.desc.size == new_size
                &&& cache_reaches(after, new_size)
                &&& new_size != inode.desc.size ==> stamped_now(after, now)
                &&& new_size != inode.desc.size && journaled && tid is Some ==> carried_by(
                    after,
                    tid->0,
                )
                &&& new_size == inode.desc.size ==> after.desc.mtime == inode.desc.mtime
            }
            &&& plan.fault is None && new_size < inode.desc.size ==> {
                &&& all_cut_behind(plan.ops@, n, new_size as int)
                &&& exists|i: int| 0 <= i < plan.ops@.len() && #[trigger] plan.ops@[i] is Truncate
                &&& tail_is_flushed_first(plan.ops@, new_size, inode.desc.size)
                &&& journaled ==> exists|i: int|
                    0 <= i < plan.ops@.len() && #[trigger] plan.ops@[i] is RegisterOrdered
            }
            &&& plan.fault is None ==> forall|i: int, j: int|
                0 <= i < plan.ops@.len() && 0 <= j < plan.ops@.len()
                    && #[trigger] plan.ops@[i] is SetSize && #[trigger] plan.ops@[j] is ResizeCache
                    ==> (if new_size > inode.desc.size {
                    i < j
                } else {
                    j < i
                })
            &&& forall|i: int, j: int|
                0 <= i < plan.ops@.len() && 0 <= j < plan.ops@.len()
                    && #[trigger] plan.ops@[i] is SetSize && #[trigger] plan.ops@[j] is Truncate
                    ==> i < j
            &&& new_size >= inode.desc.size ==> left.places == content.places && left.written
                == content.written
            &&& new_size > inode.desc.size && new_size > (if inode.desc.type_ == InodeType::File {
                max_file_size as int
            } else {
                0xFFFF_FFFF
            }) ==> plan.fault == Some(Error::SizeLimit) && after == inode && left == content
        }),
{
    let ops = plan.ops@;
    let n = (new_size + 4095) / 4096;
    assert(ops[0] is BeginOp);
    if plan.fault is None {
        if new_size < inode.desc.size {
            assert(ops[1] is FlushPages);
            assert(ops[2] is ResizeCache);
            assert(ops[3] == FileOp::SetSize { size: new_size });
            assert(ops[4] is Truncate);
            assert(ops[5] is StampTimes);
            if journaled {
                assert(ops[6] is WriteBack);
                assert(ops[7] is StampDatasync);
                assert(ops[8] is RegisterOrdered);
                if tid is Some {
                    lemma_carried_after(inode, ops, now, tid->0, seen, 5, 6);
                }
            }
            lemma_stamped_after(inode, ops, now, tid, seen);
        } else if new_size > inode.desc.size {
            assert(ops[1] == FileOp::SetSize { size: new_size });
            assert(ops[2] is ResizeCache);
            assert(ops[3] is StampTimes);
            if journaled && tid is Some {
                assert(ops[4] is WriteBack);
                assert(ops[5] is StampDatasync);
                lemma_carried_after(inode, ops, now, tid->0, seen, 3, 4);
            }
            lemma_stamped_after(inode, ops, now, tid, seen);
        } else {
            lemma_unstamped(inode, ops, now, tid, seen);
        }
        lemma_size_after(inode, ops, now, tid, new_size, seen);
        lemma_cache_after(inode, ops, now, tid, new_size, seen);
    }
    if new_size >= inode.desc.size {
        lemma_maps_kept(content, ops, around);
        if plan.fault == Some(Error::SizeLimit) {
            assert(ops.len() == 1);
            reveal_with_fuel(after_ops, 2);
            reveal_with_fuel(Content::after_all, 2);
            assert(ops.drop_last() =~= seq![]);
        }
    }
}

proof fn lemma_maps_kept(content: Content, ops: Seq<FileOp>, around: Surroundings)
    requires
        forall|i: int|
            0 <= i < ops.len() ==> !(#[trigger] ops[i] is Allocate || ops[i] is MarkWritten
                || ops[i] is Truncate || ops[i] is PunchRange),
    ensures
        content.after_all(ops, around).places == content.places,
        content.after_all(ops, around).written == content.written,
    decreases ops.len(),
{
    if ops.len() > 0 {
        let init = ops.drop_last();
        assert forall|i: int| 0 <= i < init.len() implies !(#[trigger] init[i] is Allocate
            || init[i] is MarkWritten || init[i] is Truncate || init[i] is PunchRange) by {
            assert(init[i] == ops[i]);
        }
        lemma_maps_kept(content, init, around);
        assert(!(ops[ops.len() - 1] is Allocate));
    }
}

/// After a chunk either nothing is left to free and the inode leaves the orphan
/// list, or a transaction with the room that the next chunk needs is asked to free
/// on, down to the same size.
pub proof fn freeing_goes_on(free: FreeLoop, chunk: FreedChunk, ops: Vec<FileOp>)
    requires
        call_ensures(FreeLoop::on_chunk, (&free, chunk), ops),
    ensures
        chunk.reached <= free.keep <==> exists|i: int|
            0 <= i < ops@.len() && #[trigger] ops@[i] is OrphanDel,
        chunk.reached > free.keep <==> exists|i: int|
            0 <= i < ops@.len() && #[trigger] ops@[i] is TruncateChunk,
        chunk.reached > free.keep ==> ops@.len() >= 2 && ops@.last() == (FileOp::TruncateChunk {
            size: free.size,
        }) && ops@[ops@.len() - 2] == (FileOp::Restart { credits: chunk.next_bound }),
        chunk.reached <= free.keep && free.end is FreeInode ==> ops@.last() is FreeInode,
        chunk.reached <= free.keep && free.end is Datasync ==> ops@.last() is StampDatasync,
{
    assert(ops@.len() == 3);
    assert(chunk.reached <= free.keep ==> ops@[0] is OrphanDel);
    assert(chunk.reached > free.keep ==> ops@[2] is TruncateChunk);
}

/// A deleted inode is freed if it is still allocated, and one with links never is.
/// All its blocks are freed, and it is left with no size and the time of its
/// deletion.
pub proof fn reclaim_leaves_nothing(
    inode: Inode,
    allocated: bool,
    journaled: bool,
    sectors: u64,
    r: Option<(Vec<FileOp>, FreeLoop)>,
    chunks: Seq<FreedChunk>,
    content: Content,
    around: Surroundings,
)
    requires
        call_ensures(
            Inode::try_reclaim_deleted_inode,
            (&inode, allocated, journaled, sectors),
            r,
        ),
        r matches Some((_, free)) ==> goes_on(free, chunks),
        journaled || chunks.len() == 0,
    ensures
        r is Some <==> inode.desc.link_count == 0 && allocated,
        r matches Some((ops, free)) ==> {
            let run = free_run(ops@, free, chunks);
            let after = after_run(content, run, chunks, around);
            &&& begins_with(ops@, Reserve::Reclaim)
            &&& free.keep == 0
            &&& free.size == 0
            &&& free.end is FreeInode
            &&& inode.payload is DataBacked && sectors > 0 && (!journaled || finished(free, chunks))
                ==> forall|b: int| #[trigger] after.places.dom().contains(b) ==> b < 0
            &&& forall|i: int|
                0 <= i < run.len() ==> (#[trigger] run[i] matches FileOp::SetSize { size } ==> size
                    == 0)
            &&& exists|i: int| 0 <= i < run.len() && #[trigger] run[i] is SetSize
            &&& exists|i: int| 0 <= i < run.len() && #[trigger] run[i] is SetDeleted
            &&& !(inode.payload is DataBacked) || sectors == 0 || !journaled ==> ops@.last()
                is FreeInode
        },
{
    if r is Some {
        let (ops, free) = r->Some_0;
        let front = ops@;
        let run = free_run(front, free, chunks);
        let k = if inode.payload is DataBacked {
            1int
        } else {
            0
        };
        assert(front[0] is BeginOp);
        assert(front[2 + k] is SetDeleted);
        assert(front[3 + k] == FileOp::SetSize { size: 0 });
        lemma_run_starts(front, free, chunks, 0);
        assert(run[2 + k] is SetDeleted);
        assert(run[3 + k] is SetSize);
        if inode.payload is DataBacked && sectors > 0 {
            assert(front.take(5) + front.skip(5) =~= front);
            if journaled {
                assert(front.len() == 6);
                lemma_none_asked(front.take(5));
                lemma_asked_adds(front.take(5), front.skip(5));
                reveal_with_fuel(chunks_asked, 2);
                assert(front.skip(5).drop_last() =~= seq![]);
                lemma_run_cuts(front, free, chunks, 0, 0);
                if finished(free, chunks) {
                    lemma_cut_off(content, run, chunks, around, 0, 0, chunks.len() - 1);
                }
            } else {
                assert(front[5] is Truncate);
                lemma_cut_off(content, run, chunks, around, 0, 0, 0);
            }
        }
    }
}

proof fn lemma_none_asked(ops: Seq<FileOp>)
    requires
        forall|i: int| 0 <= i < ops.len() ==> !(#[trigger] ops[i] is TruncateChunk),
    ensures
        chunks_asked(ops) == 0,
    decreases ops.len(),
{
    if ops.len() > 0 {
        let init = ops.drop_last();
        assert forall|i: int| 0 <= i < init.len() implies !(#[trigger] init[i] is TruncateChunk) by {
            assert(init[i] == ops[i]);
        }
        lemma_none_asked(init);
        assert(!(ops[ops.len() - 1] is TruncateChunk));
    }
}

/// Finishing an interrupted shrink is refused of an inode without blocks, and of a
/// size whose blocks cannot be counted; nothing but the time of the deletion, which
/// was of the orphan list, is changed then.
pub proof fn retruncations_are_sorted(
    inode: Inode,
    target: u64,
    journaled: bool,
    r: (Plan, FreeLoop),
)
    requires
        call_ensures(Inode::retruncate_to, (&inode, target, journaled), r),
    ensures
        r.0.fault is None <==> inode.payload is DataBacked && target <= 0xFFFF_FFFF * 4096,
        r.0.fault == Some(Error::BlockIndexTooWide) <==> target > 0xFFFF_FFFF * 4096,
        r.0.fault == Some(Error::NoBlockManager) <==> target <= 0xFFFF_FFFF * 4096 && !(
        inode.payload is DataBacked),
        r.0.ops@[0] is ClearDeleted,
        r.0.fault is Some ==> r.0.ops@.len() == 1,
        r.0.fault is None && journaled ==> r.0.ops@.last() is TruncateChunk,
        r.0.fault is None && !journaled ==> r.0.ops@.last() is StampDatasync,
{
}

/// Whether steps set neither a size nor the times.
pub open spec fn sets_nothing(ops: Seq<FileOp>) -> bool {
    forall|i: int|
        0 <= i < ops.len() ==> !(#[trigger] ops[i] is SetSize) && !(ops[i] is StampTimes)
}

proof fn lemma_run_unstamped(front: Seq<FileOp>, free: FreeLoop, chunks: Seq<FreedChunk>)
    requires
        sets_nothing(front),
    ensures
        sets_nothing(free_run(front, free, chunks)),
    decreases chunks.len(),
{
    if chunks.len() > 0 {
        lemma_run_unstamped(front, free, chunks.drop_last());
        let run = free_run(front, free, chunks.drop_last());
        let steps = steps_after_chunk(free, chunks.last());
        assert forall|i: int| 0 <= i < (run + steps).len() implies !(#[trigger] (run + steps)[i]
            is SetSize) && !((run + steps)[i] is StampTimes) by {
            if i < run.len() {
                assert((run + steps)[i] == run[i]);
            } else {
                assert((run + steps)[i] == steps[i - run.len()]);
            }
        }
    }
}

proof fn lemma_unstamped(
    inode: Inode,
    ops: Seq<FileOp>,
    now: Duration,
    tid: Option<Tid>,
    seen: Seq<ExtentSnapshot>,
)
    requires
        sets_nothing(ops),
    ensures
        after_ops(inode, ops, now, tid, seen).desc.size == inode.desc.size,
        after_ops(inode, ops, now, tid, seen).desc.mtime == inode.desc.mtime,
        after_ops(inode, ops, now, tid, seen).desc.ctime == inode.desc.ctime,
    decreases ops.len(),
{
    if ops.len() > 0 {
        let init = ops.drop_last();
        assert(sets_nothing(init)) by {
            assert forall|i: int| 0 <= i < init.len() implies !(#[trigger] init[i] is SetSize) && !(
            init[i] is StampTimes) by {
                assert(init[i] == ops[i]);
            }
        }
        lemma_unstamped(inode, init, now, tid, seen);
        assert(!(ops[ops.len() - 1] is SetSize));
    }
}

} // verus!
