//! What reserving space and punching holes do to the file, told by offsets, sizes
//! and times.

use vstd::prelude::*;

use crate::error::Error;
use crate::inode::cuts::{begins_with, holds_just};
use crate::inode::desc::InodeType;
use crate::inode::effects::{carried_by, lemma_carried_after, lemma_stamped_after, stamped_now};
use crate::inode::falloc::{
    has_full_blocks, inner_start, partial_ranges, punch_front,
    zero_steps, FallocMode, FallocPlan, PreallocLoop, PunchLoop, PunchedChunk,
};
use crate::inode::node::{ExtentSnapshot, Inode};
use crate::inode::ops::{after_ops, lemma_size_after, page_end, FileOp, Reserve};
use crate::inode::resize::{block_start, Plan};
use crate::inode::time::Duration;
use crate::inode::write::HoleFill;
use crate::journal::tid::Tid;

verus! {

/// Only regular files are asked for space. An empty range is let be, and so is a
/// hole behind the end of the file. Reserving space past the limit is refused, and
/// so are the modes that are not known.
pub proof fn space_requests_are_sorted(
    inode: Inode,
    mode: FallocMode,
    offset: u64,
    len: u64,
    max_credits: Option<usize>,
    max_file_size: u64,
    r: Result<FallocPlan, Error>,
)
    requires
        inode.wf(),
        page_end(inode.desc.size) <= u64::MAX,
        call_ensures(
            Inode::fallocate,
            (&inode, mode, offset, len, max_credits, max_file_size),
            r,
        ),
    ensures
        inode.desc.type_ != InodeType::File <==> r == Err::<FallocPlan, Error>(Error::NotRegular),
        inode.desc.type_ == InodeType::File && len == 0 ==> r == Ok::<FallocPlan, Error>(
            FallocPlan::Nothing,
        ),
        inode.desc.type_ == InodeType::File && len > 0 && mode != FallocMode::Allocate && mode
            != FallocMode::AllocateKeepSize && mode != FallocMode::PunchHoleKeepSize <==> r == Err::<
            FallocPlan,
            Error,
        >(Error::UnsupportedFallocMode),
        inode.desc.type_ == InodeType::File && len > 0 && (mode == FallocMode::Allocate || mode
            == FallocMode::AllocateKeepSize) ==> {
            &&& offset + len > u64::MAX <==> r == Err::<FallocPlan, Error>(Error::RangeOverflow)
            &&& max_file_size < offset + len <= u64::MAX <==> r == Err::<FallocPlan, Error>(
                Error::SizeLimit,
            )
            &&& offset + len <= max_file_size && offset + len <= 0xFFFF_FFFF * 4096 ==> (r matches
                Ok(FallocPlan::Preallocate(_, _)))
            &&& offset + len <= max_file_size && offset + len > 0xFFFF_FFFF * 4096 <==> r == Err::<
                FallocPlan,
                Error,
            >(Error::BlockIndexTooWide)
        },
        inode.desc.type_ == InodeType::File && len > 0 && mode == FallocMode::PunchHoleKeepSize
            ==> {
            &&& offset >= inode.desc.size <==> r == Ok::<FallocPlan, Error>(FallocPlan::Nothing)
            &&& offset < inode.desc.size && offset + len > u64::MAX <==> r == Err::<
                FallocPlan,
                Error,
            >(Error::RangeOverflow)
            &&& offset < inode.desc.size && offset + len <= u64::MAX <==> (r matches Ok(
                FallocPlan::Punch(_, _),
            ))
        },
{
}

/// Reserving space asks for the blocks of the range, and the size is to grow to the
/// end of the range only where that was asked for and the file is smaller. Nothing
/// of it is visible before all is mapped, but that the page cache reaches further.
pub proof fn reservations_ask_for_the_range(
    inode: Inode,
    keep_size: bool,
    offset: u64,
    len: u64,
    max_credits: Option<usize>,
    max_file_size: u64,
    ops: Vec<FileOp>,
    going: PreallocLoop,
    done: bool,
)
    requires
        inode.wf(),
        inode.desc.type_ == InodeType::File,
        len > 0,
        page_end(inode.desc.size) <= u64::MAX,
        call_ensures(
            Inode::fallocate,
            (
                &inode,
                if keep_size {
                    FallocMode::AllocateKeepSize
                } else {
                    FallocMode::Allocate
                },
                offset,
                len,
                max_credits,
                max_file_size,
            ),
            Ok::<FallocPlan, Error>(FallocPlan::Preallocate(ops, going)),
        ),
        call_ensures(PreallocLoop::is_done, (&going,), done),
    ensures
        going.cursor * 4096 <= offset < going.cursor * 4096 + 4096,
        holds_just(going.stop as int, offset + len),
        offset + len <= max_file_size,
        going.grow_to == (if !keep_size && offset + len > inode.desc.size {
            Some((offset + len) as u64)
        } else {
            None
        }),
        going.max_credits == max_credits,
        !done,
        ops@.len() > 0,
        ops@.last() == (FileOp::AllocateChunk { first: going.cursor, stop: going.stop }),
        forall|i: int|
            0 <= i < ops@.len() - 1 ==> #[trigger] ops@[i] == FileOp::BeginOp(Reserve::Write)
                || ops@[i] == FileOp::EnsureCredits(Reserve::Write) || ops@[i] is ResizeCache
                && Some(ops@[i]->ResizeCache_0.new) == going.grow_to
                && ops@[i]->ResizeCache_0.old == inode.desc.size,
        going.grow_to is Some <==> exists|i: int|
            0 <= i < ops@.len() && #[trigger] ops@[i] is ResizeCache,
{
    if going.grow_to is Some {
        assert(ops@[0] is ResizeCache);
    }
}

/// Mapping goes on from where it came to, in transactions with the room that the
/// next block needs, until all is mapped. Then, and only then, the size grows, if it
/// was to, and the times are stamped. It fails only where the next block needs more
/// room than any transaction has.
pub proof fn reservations_take_effect(
    going: &mut PreallocLoop,
    fill: HoleFill,
    r: Result<Vec<FileOp>, Error>,
    done: bool,
    inode: Inode,
    now: Duration,
    tid: Option<Tid>,
    seen: Seq<ExtentSnapshot>,
)
    requires
        old(going).cursor < old(going).stop,
        fill matches HoleFill::Stopped { reached, .. } ==> old(going).cursor <= reached <= old(
            going,
        ).stop,
        call_ensures(PreallocLoop::on_fill, (going, fill), r),
        call_ensures(PreallocLoop::is_done, (&*final(going),), done),
    ensures
        done <==> final(going).cursor == final(going).stop,
        final(going).stop == old(going).stop,
        final(going).grow_to == old(going).grow_to,
        final(going).max_credits == old(going).max_credits,
        fill is Filled ==> final(going).cursor == old(going).stop,
        fill is Stopped ==> final(going).cursor == fill->reached,
        r is Err <==> fill is Stopped && fill->reached == old(going).cursor && old(
            going,
        ).max_credits is Some && fill->need > old(going).max_credits->0,
        r matches Err(e) ==> e == Error::InsertExceedsTransaction,
        r matches Ok(ops) ==> {
            let after = after_ops(inode, ops@, now, tid, seen);
            if final(going).cursor == final(going).stop {
                &&& stamped_now(after, now)
                &&& tid is Some ==> carried_by(after, tid->0)
                &&& after.desc.size == match old(going).grow_to {
                    Some(size) => size,
                    None => inode.desc.size,
                }
                &&& forall|i: int| 0 <= i < ops@.len() ==> !(#[trigger] ops@[i] is AllocateChunk)
            } else {
                &&& ops@.last() == (FileOp::AllocateChunk {
                    first: final(going).cursor,
                    stop: final(going).stop,
                })
                &&& exists|i: int|
                    0 <= i < ops@.len() && #[trigger] ops@[i] == (FileOp::Restart {
                        credits: fill->need,
                    })
                &&& forall|i: int|
                    0 <= i < ops@.len() ==> !(#[trigger] ops@[i] is SetSize)
                        && !(ops@[i] is StampTimes)
            }
        },
{
    if r is Ok {
        let ops = r->Ok_0@;
        let g = match old(going).grow_to {
            Some(_) => 1int,
            None => 0,
        };
        match fill {
            HoleFill::Filled => {
                assert(ops[1 + g] is StampTimes);
                assert(ops[2 + g] is WriteBack);
                assert(ops[3 + g] is StampDatasync);
                if tid is Some {
                    lemma_carried_after(inode, ops, now, tid->0, seen, 1 + g, 2 + g);
                }
                lemma_stamped_after(inode, ops, now, tid, seen);
                if let Some(size) = old(going).grow_to {
                    assert(ops[1] == FileOp::SetSize { size });
                    lemma_size_after(inode, ops, now, tid, size, seen);
                } else {
                    lemma_size_after(inode, ops, now, tid, inode.desc.size, seen);
                }
            },
            HoleFill::Stopped { reached, need } => {
                if reached > old(going).cursor {
                    assert(ops[1] == FileOp::Restart { credits: need });
                    if reached == old(going).stop {
                        assert(ops[2 + g] is StampTimes);
                        assert(ops[3 + g] is WriteBack);
                        assert(ops[4 + g] is StampDatasync);
                        if tid is Some {
                            lemma_carried_after(inode, ops, now, tid->0, seen, 2 + g, 3 + g);
                        }
                        lemma_stamped_after(inode, ops, now, tid, seen);
                        if let Some(size) = old(going).grow_to {
                            assert(ops[2] == FileOp::SetSize { size });
                            lemma_size_after(inode, ops, now, tid, size, seen);
                        } else {
                            lemma_size_after(inode, ops, now, tid, inode.desc.size, seen);
                        }
                    }
                } else {
                    assert(ops[0] == FileOp::Restart { credits: need });
                }
            },
        }
    }
}

/// Whether a step clears the byte `p`: it fills it with zeros, or frees its block.
pub open spec fn clears(op: FileOp, p: int) -> bool {
    match op {
        FileOp::ZeroIfMapped { start, end, .. } => start <= p < end,
        FileOp::PunchRange { first, stop } => first * 4096 <= p < stop * 4096,
        FileOp::PunchChunk { first, stop } => first * 4096 <= p < stop * 4096,
        _ => false,
    }
}

/// Whether a step clears nothing outside of the hole, drops no page outside of it,
/// and fills no more than one block with zeros.
pub open spec fn clears_within(op: FileOp, offset: int, end: int) -> bool {
    match op {
        FileOp::ZeroIfMapped { block, start, end: to } => offset <= start < to <= end && block
            * 4096 <= start && to <= block * 4096 + 4096,
        FileOp::PunchRange { first, stop } => offset <= first * 4096 < stop * 4096 <= end,
        FileOp::PunchChunk { first, stop } => offset <= first * 4096 < stop * 4096 <= end,
        FileOp::InvalidatePages { start, end: to } => offset <= start < to <= end && start % 4096
            == 0 && to % 4096 == 0,
        _ => true,
    }
}

/// Whether the pages of the blocks that the step `i` frees are dropped before it, so
/// that no reader finds their old bytes in the page cache.
pub open spec fn pages_dropped_before(ops: Seq<FileOp>, i: int) -> bool {
    exists|j: int|
        0 <= j < i && (#[trigger] ops[j] matches FileOp::InvalidatePages { start, end } && match
            ops[i] {
            FileOp::PunchChunk { first, stop } => start == first * 4096 && end == stop * 4096,
            FileOp::PunchRange { first, stop } => start == first * 4096 && end == stop * 4096,
            _ => true,
        })
}

/// A hole is cleared as far as the file reaches, byte for byte, and nothing outside
/// of it is touched. The size stays, and the times are stamped. With a journal, the
/// zeros are on the disk before the transaction commits.
pub proof fn holes_take_effect(
    inode: Inode,
    offset: u64,
    len: u64,
    max_credits: Option<usize>,
    max_file_size: u64,
    plan: Plan,
    punch: PunchLoop,
    now: Duration,
    tid: Option<Tid>,
    seen: Seq<ExtentSnapshot>,
    p: int,
)
    requires
        inode.wf(),
        inode.desc.type_ == InodeType::File,
        len > 0,
        page_end(inode.desc.size) <= u64::MAX,
        call_ensures(
            Inode::fallocate,
            (&inode, FallocMode::PunchHoleKeepSize, offset, len, max_credits, max_file_size),
            Ok::<FallocPlan, Error>(FallocPlan::Punch(plan, punch)),
        ),
    ensures
        inode.desc.size <= 0xFFFF_FFFF * 4096 ==> plan.fault is None,
        plan.fault is None ==> {
            let end = if offset + len < inode.desc.size {
                offset + len
            } else {
                inode.desc.size as int
            };
            let after = after_ops(inode, plan.ops@, now, tid, seen);
            &&& stamped_now(after, now)
            &&& after.desc.size == inode.desc.size
            &&& offset <= p < end ==> exists|i: int|
                0 <= i < plan.ops@.len() && clears(#[trigger] plan.ops@[i], p)
            &&& forall|i: int|
                0 <= i < plan.ops@.len() ==> clears_within(
                    #[trigger] plan.ops@[i],
                    offset as int,
                    end,
                )
            &&& forall|i: int|
                0 <= i < plan.ops@.len() ==> (#[trigger] plan.ops@[i] matches FileOp::PunchChunk {
                    first,
                    stop,
                } ==> first == punch.first && stop == punch.stop && i == plan.ops@.len() - 1
                    && max_credits is Some)
            &&& max_credits is Some ==> exists|i: int|
                0 <= i < plan.ops@.len() && #[trigger] plan.ops@[i] is RegisterOrdered
            &&& begins_with(plan.ops@, Reserve::Truncate)
            &&& forall|i: int|
                0 <= i < plan.ops@.len() && (#[trigger] plan.ops@[i] is PunchChunk || plan.ops@[i]
                    is PunchRange) ==> pages_dropped_before(plan.ops@, i)
        },
{
    let journaled = max_credits is Some;
    let end = if offset + len < inode.desc.size {
        (offset + len) as u64
    } else {
        inode.desc.size
    };
    assert((plan.ops@, plan.fault) == punch_front(offset, end, journaled));
    lemma_edges(offset, end);
    if plan.fault is None {
        let ops = plan.ops@;
        lemma_hole_sets_no_size(offset, end, journaled);
        lemma_hole_stays_within(offset, end, journaled);
        lemma_hole_drops_pages(offset, end, journaled);
        if offset <= p < end {
            lemma_hole_is_cleared(offset, end, journaled, p);
        }
        lemma_stamped_after(inode, ops, now, tid, seen);
        lemma_size_after(inode, ops, now, tid, inode.desc.size, seen);
    }
}

/// How many steps come before the times are stamped.
spec fn steps_before_stamp(offset: u64, end: u64) -> int {
    zero_steps(partial_ranges(offset, end)).0.len() + if has_full_blocks(offset, end) {
        1int
    } else {
        0
    }
}

proof fn lemma_hole_sets_no_size(offset: u64, end: u64, journaled: bool)
    requires
        offset < end,
        page_end(end) <= u64::MAX,
        punch_front(offset, end, journaled).1 is None,
    ensures
        ({
            let ops = punch_front(offset, end, journaled).0;
            let at = steps_before_stamp(offset, end);
            &&& at + 2 < ops.len()
            &&& ops[at] is StampTimes
            &&& journaled ==> ops[at + 2] is RegisterOrdered
            &&& begins_with(ops, Reserve::Truncate)
            &&& forall|i: int| 0 <= i < ops.len() ==> !(#[trigger] ops[i] is SetSize)
        }),
{
    lemma_edges(offset, end);
    let ops = punch_front(offset, end, journaled).0;
    let zeroes = zero_steps(partial_ranges(offset, end)).0;
    let n = zeroes.len() as int;
    assert(forall|i: int| 0 <= i < n ==> ops[i] == #[trigger] zeroes[i]);
    let at = steps_before_stamp(offset, end);
    assert(ops[at] is StampTimes);
    assert(ops[at + 1] is BeginOp);
    assert forall|i: int| 0 <= i < ops.len() && #[trigger] ops[i] is BeginOp implies ops[i]
        == FileOp::BeginOp(Reserve::Truncate) by {
        if i < n {
            assert(ops[i] == zeroes[i]);
        }
    }
    assert forall|i: int| 0 <= i < ops.len() implies !(#[trigger] ops[i] is SetSize) by {
        if i < n {
            assert(ops[i] == zeroes[i]);
        }
    }
}

proof fn lemma_hole_stays_within(offset: u64, end: u64, journaled: bool)
    requires
        offset < end,
        page_end(end) <= u64::MAX,
        punch_front(offset, end, journaled).1 is None,
    ensures
        ({
            let ops = punch_front(offset, end, journaled).0;
            &&& forall|i: int|
                0 <= i < ops.len() ==> clears_within(#[trigger] ops[i], offset as int, end as int)
            &&& forall|i: int|
                0 <= i < ops.len() ==> (#[trigger] ops[i] matches FileOp::PunchChunk { first, stop }
                    ==> first * 4096 == inner_start(offset) && stop == end / 4096 && i == ops.len()
                    - 1 && journaled && has_full_blocks(offset, end))
        }),
{
    lemma_edges(offset, end);
    let ops = punch_front(offset, end, journaled).0;
    let zeroes = zero_steps(partial_ranges(offset, end)).0;
    let n = zeroes.len() as int;
    assert(forall|i: int| 0 <= i < n ==> ops[i] == #[trigger] zeroes[i]);
    assert forall|i: int| 0 <= i < ops.len() implies clears_within(
        #[trigger] ops[i],
        offset as int,
        end as int,
    ) by {
        if i < n {
            assert(ops[i] == zeroes[i]);
        }
    }
    assert forall|i: int| 0 <= i < ops.len() implies (#[trigger] ops[i] matches
        FileOp::PunchChunk { first, stop } ==> first * 4096 == inner_start(offset) && stop == end
        / 4096 && i == ops.len() - 1 && journaled && has_full_blocks(offset, end)) by {
        if i < n {
            assert(ops[i] == zeroes[i]);
        }
    }
}

proof fn lemma_hole_drops_pages(offset: u64, end: u64, journaled: bool)
    requires
        offset < end,
        page_end(end) <= u64::MAX,
        punch_front(offset, end, journaled).1 is None,
    ensures
        ({
            let ops = punch_front(offset, end, journaled).0;
            forall|i: int|
                0 <= i < ops.len() && (#[trigger] ops[i] is PunchChunk || ops[i] is PunchRange)
                    ==> pages_dropped_before(ops, i)
        }),
{
    lemma_edges(offset, end);
    let ops = punch_front(offset, end, journaled).0;
    let zeroes = zero_steps(partial_ranges(offset, end)).0;
    let n = zeroes.len() as int;
    assert(forall|i: int| 0 <= i < n ==> ops[i] == #[trigger] zeroes[i]);
    assert forall|i: int| 0 <= i < ops.len() && (#[trigger] ops[i] is PunchChunk || ops[i]
        is PunchRange) implies pages_dropped_before(ops, i) by {
        if i < n {
            assert(ops[i] == zeroes[i]);
        } else {
            assert(has_full_blocks(offset, end));
            assert(ops[n] is InvalidatePages);
            assert(n < i);
        }
    }
}

proof fn lemma_hole_is_cleared(offset: u64, end: u64, journaled: bool, p: int)
    requires
        offset <= p < end,
        page_end(end) <= u64::MAX,
        punch_front(offset, end, journaled).1 is None,
    ensures
        exists|i: int|
            0 <= i < punch_front(offset, end, journaled).0.len() && clears(
                #[trigger] punch_front(offset, end, journaled).0[i],
                p,
            ),
{
    let ops = punch_front(offset, end, journaled).0;
    let zeroes = zero_steps(partial_ranges(offset, end)).0;
    let n = zeroes.len() as int;
    if has_full_blocks(offset, end) && inner_start(offset) <= p < block_start(end) {
        let work = n + 3 + if journaled {
            1int
        } else {
            0
        };
        assert(ops[work] is PunchChunk || ops[work] is PunchRange);
        assert(clears(ops[work], p));
    } else {
        lemma_edge_of(offset, end, p);
        let k = choose|k: int| 0 <= k < n && clears(#[trigger] zeroes[k], p);
        assert(ops[k] == zeroes[k]);
        assert(clears(ops[k], p));
    }
}

proof fn lemma_edges(offset: u64, end: u64)
    requires
        offset < end,
        page_end(end) <= u64::MAX,
    ensures
        ({
            let (zeroes, fault) = zero_steps(partial_ranges(offset, end));
            &&& fault is None ==> forall|i: int|
                0 <= i < zeroes.len() ==> #[trigger] zeroes[i] is ZeroIfMapped && clears_within(
                    zeroes[i],
                    offset as int,
                    end as int,
                )
            &&& end <= 0xFFFF_FFFF * 4096 ==> fault is None
        }),
{
    reveal_with_fuel(zero_steps, 3);
    let ranges = partial_ranges(offset, end);
    assert(ranges.drop_last().drop_last() =~= seq![] || ranges.len() < 2);
    if ranges.len() == 2 {
        assert(ranges.drop_last() =~= seq![ranges[0]]);
    } else if ranges.len() == 1 {
        assert(ranges.drop_last() =~= seq![]);
    }
}

proof fn lemma_edge_of(offset: u64, end: u64, p: int)
    requires
        offset <= p < end,
        page_end(end) <= u64::MAX,
        zero_steps(partial_ranges(offset, end)).1 is None,
        !(inner_start(offset) <= p < block_start(end)),
    ensures
        exists|k: int|
            0 <= k < zero_steps(partial_ranges(offset, end)).0.len() && clears(
                #[trigger] zero_steps(partial_ranges(offset, end)).0[k],
                p,
            ),
{
    reveal_with_fuel(zero_steps, 3);
    let ranges = partial_ranges(offset, end);
    let zeroes = zero_steps(ranges).0;
    if ranges.len() == 2 {
        assert(ranges.drop_last() =~= seq![ranges[0]]);
        assert(seq![ranges[0]].drop_last() =~= seq![]);
        if p < inner_start(offset) {
            assert(clears(zeroes[0], p));
        } else {
            assert(clears(zeroes[1], p));
        }
    } else {
        assert(ranges.len() == 1);
        assert(ranges.drop_last() =~= seq![]);
        assert(clears(zeroes[0], p));
    }
}

/// A hole goes on over the same blocks while some are left, in a transaction with
/// the room that the next of them needs, and each transaction has the inode.
pub proof fn holes_go_on(punch: PunchLoop, chunk: PunchedChunk, ops: Vec<FileOp>)
    requires
        call_ensures(PunchLoop::on_chunk, (&punch, chunk), ops),
    ensures
        ops@.len() > 0,
        ops@[0] is WriteBack,
        chunk.more ==> ops@.last() == (FileOp::PunchChunk { first: punch.first, stop: punch.stop })
            && ops@[ops@.len() - 2] == (FileOp::Restart { credits: chunk.next_bound }),
        !chunk.more ==> ops@.last() is StampDatasync,
        !chunk.more ==> forall|i: int| 0 <= i < ops@.len() ==> !(#[trigger] ops@[i] is PunchChunk),
{
}

} // verus!
