//! What commits and checkpoints are planned to do, told by what they write and
//! where.

use vstd::prelude::*;

use crate::bytes::{be32_at, lemma_be32_at};
use crate::error::Error;
use crate::journal::apply::{covers, LogView};
use crate::journal::checkpoint::{
    checkpointed, passed, txns_left, CheckpointPass, PassInput, PassNext, Retirement,
};
use crate::journal::commit::{
    body_log, commit_ops, flush_ops, log_ops, op_views, try_commit_transaction, txn_footprint,
    CommitAttempt, CommitPlan, OpView,
};
use crate::journal::damage::strange_blocks_fail_the_transaction;
use crate::journal::descriptor::{descriptor_round_trips, run_descriptor, run_fits_tags};
use crate::journal::geometry::{in_ring, ring_advance, JournalGeometry};
use crate::journal::revoke::{
    first_run, revoke_block, revoke_block_round_trips, revoke_blocks, revoke_capacity, revokes_fit,
};
use crate::journal::superblock::{stamped, with_clean_log, with_tail, RawJournalSuperblock};
use crate::journal::tag::lemma_capacity;
use crate::journal::tid::Tid;
use crate::journal::transaction::{is_registered, OrderedData, Transaction};

verus! {

/// A transaction is committed where it fits the free part of the log, and has to wait
/// where it does not. One that has captured nothing, or a block number that is wider
/// than those of the journal, is never committed.
pub proof fn commits_are_sorted(
    geo: JournalGeometry,
    txn: Transaction,
    head: u32,
    tail: Option<u32>,
    free: u32,
    r: Result<CommitAttempt, Error>,
)
    requires
        geo.wf(),
        in_ring(geo.superblock, head as int),
        tail matches Some(tail) ==> in_ring(geo.superblock, tail as int),
        call_ensures(JournalGeometry::free_log_blocks, (&geo, head, tail), free),
        call_ensures(try_commit_transaction, (&geo, &txn, head, tail), r),
    ensures
        r matches Ok(CommitAttempt::NeedsLogSpace) ==> txn_footprint(geo.superblock, txn) > free,
        r matches Ok(CommitAttempt::Ready(plan)) ==> {
            &&& plan.footprint == txn_footprint(geo.superblock, txn)
            &&& plan.footprint <= free
            &&& plan.tid == txn.tid
            &&& plan.start == head
            &&& plan.was_clean <==> tail is None
        },
        // The reasons to refuse it, of which the first that holds is named.
        ({
            let narrow = !geo.superblock.tag_layout.has_blocknr_high;
            let wide_revoke = narrow && exists|i: int|
                0 <= i < txn.revoked().len() && #[trigger] txn.revoked()[i] > u32::MAX;
            let wide_block = narrow && exists|i: int|
                0 <= i < txn.images().len() && (#[trigger] txn.images()[i]).blocknr > u32::MAX;
            let empty = txn.images().len() == 0;
            &&& r == Err::<CommitAttempt, Error>(Error::RevokeTooWide) <==> wide_revoke
            &&& r == Err::<CommitAttempt, Error>(Error::EmptyTransaction) <==> !wide_revoke && empty
            &&& r == Err::<CommitAttempt, Error>(Error::BlockTooWide) <==> !wide_revoke && !empty
                && wide_block
            &&& r == Err::<CommitAttempt, Error>(Error::TransactionTooLarge) <==> !wide_revoke
                && !empty && !wide_block && txn_footprint(geo.superblock, txn) > u32::MAX
        }),
        r matches Err(e) ==> e == Error::RevokeTooWide || e == Error::EmptyTransaction || e
            == Error::BlockTooWide || e == Error::TransactionTooLarge,
{
}

/// A commit writes the file data of each inode that was registered, its log blocks
/// one after another from the head on, and its commit block behind them. The journal
/// superblock is pointed at it only if the log was clean.
pub proof fn commits_write_everything(
    geo: JournalGeometry,
    txn: Transaction,
    head: u32,
    tail: Option<u32>,
    plan: CommitPlan,
    k: int,
)
    requires
        geo.wf(),
        in_ring(geo.superblock, head as int),
        tail matches Some(tail) ==> in_ring(geo.superblock, tail as int),
        call_ensures(
            try_commit_transaction,
            (&geo, &txn, head, tail),
            Ok::<CommitAttempt, Error>(CommitAttempt::Ready(plan)),
        ),
    ensures
        ({
            let ops = op_views(plan.ops@);
            let log = body_log(geo.superblock, txn);
            &&& 0 <= k < txn.ordered@.len() ==> exists|i: int|
                0 <= i < ops.len() && #[trigger] ops[i] == OpView::FlushData(txn.ordered@[k])
            &&& forall|i: int|
                0 <= i < ops.len() ==> (#[trigger] ops[i] matches OpView::FlushData(data)
                    ==> txn.ordered@.contains(data))
            &&& 0 <= k < log.len() ==> exists|i: int|
                0 <= i < ops.len() && #[trigger] ops[i] == (OpView::WriteLog {
                    log: ring_advance(geo.superblock, head as int, k as nat),
                    bytes: log[k],
                })
            &&& exists|i: int|
                0 <= i < ops.len() && #[trigger] ops[i] == (OpView::WriteCommitBlock {
                    log: ring_advance(geo.superblock, head as int, log.len()),
                })
            &&& forall|i: int|
                0 <= i < ops.len() ==> (#[trigger] ops[i] matches OpView::WriteCommitBlock {
                    log: at,
                } ==> at == ring_advance(geo.superblock, head as int, log.len()))
            &&& tail is None <==> exists|i: int| 0 <= i < ops.len() && #[trigger] ops[i] is MoveTail
            &&& forall|i: int|
                0 <= i < ops.len() ==> (#[trigger] ops[i] matches OpView::MoveTail { start }
                    ==> start == head)
            &&& ops.len() > 0 && ops.last() is Publish
        }),
{
    let sb = geo.superblock;
    let ops = op_views(plan.ops@);
    let log = body_log(sb, txn);
    let n = flush_ops(txn.ordered@).len() as int;
    let m = log.len() as int;
    assert(ops == commit_ops(sb, txn.ordered@, log, head as int, tail is None));
    if 0 <= k < txn.ordered@.len() {
        assert(ops[1 + k] == OpView::FlushData(txn.ordered@[k]));
    }
    if 0 <= k < m {
        assert(ops[2 + n + k] == log_ops(sb, head as int, log)[k]);
    }
    assert(ops[2 + n + m + 2] is WriteCommitBlock);
    if tail is None {
        assert(ops[2 + n + m + 4] is MoveTail);
    }
    assert forall|i: int| 0 <= i < ops.len() implies (#[trigger] ops[i] matches OpView::FlushData(
        data,
    ) ==> txn.ordered@.contains(data)) by {
        if ops[i] is FlushData {
            assert(1 <= i < 1 + n);
            assert(ops[i] == flush_ops(txn.ordered@)[i - 1]);
            assert(ops[i] == OpView::FlushData(txn.ordered@[i - 1]));
        }
    }
}

/// The first log block of a commit, which stands at the head, lists the revokes of
/// its transaction if there are any, and is a descriptor otherwise.
pub proof fn commits_list_revokes_first(
    geo: JournalGeometry,
    txn: Transaction,
    head: u32,
    tail: Option<u32>,
    plan: CommitPlan,
)
    requires
        geo.wf(),
        in_ring(geo.superblock, head as int),
        tail matches Some(tail) ==> in_ring(geo.superblock, tail as int),
        call_ensures(
            try_commit_transaction,
            (&geo, &txn, head, tail),
            Ok::<CommitAttempt, Error>(CommitAttempt::Ready(plan)),
        ),
    ensures
        ({
            let log = body_log(geo.superblock, txn);
            &&& log.len() > 0
            &&& be32_at(log[0], 0) == 0xC03B_3998
            &&& txn.revoked().len() > 0 ==> be32_at(log[0], 4) == 5
            &&& txn.revoked().len() == 0 ==> be32_at(log[0], 4) == 1
            &&& be32_at(log[0], 8) == txn.tid.0
        }),
{
    let sb = geo.superblock;
    let layout = sb.tag_layout;
    let revokes = txn.revoked();
    let caps = txn.images();
    lemma_capacity(layout, 0);
    if revokes.len() > 0 {
        let n = first_run(revokes.len(), revoke_capacity(layout));
        assert(revoke_capacity(layout) > 0);
        let run = revokes.take(n);
        assert(revokes_fit(layout, run));
        revoke_block_round_trips(layout, sb.csum_seed, txn.tid, run);
        assert(body_log(sb, txn)[0] == revoke_block(layout, sb.csum_seed, txn.tid, run));
    } else {
        let n = first_run(caps.len(), layout.capacity());
        let run = caps.take(n);
        assert(run_fits_tags(layout, run));
        descriptor_round_trips(layout, sb.csum_seed, txn.tid, run);
        assert(revoke_blocks(layout, sb.csum_seed, txn.tid, revokes) =~= Seq::empty());
        assert(body_log(sb, txn)[0] == run_descriptor(layout, sb.csum_seed, txn.tid, run));
    }
}

/// The superblock after a checkpoint points at the first transaction that is left,
/// or says that none is, where the log goes on, and with which transaction.
pub proof fn checkpoints_move_the_tail(
    end: Retirement,
    raw: &mut RawJournalSuperblock,
    next: Tid,
    i: int,
)
    requires
        call_ensures(Retirement::rewrite_superblock, (&end, raw), ()),
        call_ensures(Tid::next, (end.committed_tid,), next),
        0 <= i < 252 || 256 <= i < 1024,
    ensures
        end.stopped_early ==> be32_at(final(raw).bytes@, 28) == end.log && be32_at(
            final(raw).bytes@,
            24,
        ) == end.tid.0,
        !end.stopped_early ==> be32_at(final(raw).bytes@, 28) == 0 && be32_at(
            final(raw).bytes@,
            24,
        ) == next.0 && be32_at(final(raw).bytes@, 88) == end.head,
        !(24 <= i < 32) && !(88 <= i < 92) ==> final(raw).bytes@[i] == old(raw).bytes@[i],
        end.stopped_early && !(24 <= i < 32) ==> final(raw).bytes@[i] == old(raw).bytes@[i],
{
    let b = final(raw).bytes@;
    if end.stopped_early {
        let plain = with_tail(old(raw).bytes@, end.log, end.tid);
        assert(forall|j: int| 0 <= j < 252 ==> stamped(plain)[j] == plain[j]);
        lemma_be32_at(b, 28, end.log);
        lemma_be32_at(b, 24, end.tid.0);
    } else {
        let plain = with_clean_log(old(raw).bytes@, next, end.head);
        assert(forall|j: int| 0 <= j < 252 ==> stamped(plain)[j] == plain[j]);
        lemma_be32_at(b, 28, 0);
        lemma_be32_at(b, 24, next.0);
        lemma_be32_at(b, 88, end.head);
    }
}

/// A pass is idle from the start only where the log is clean, or holds no committed
/// transaction, or has as many free blocks as were asked for.
pub proof fn idle_passes_have_nothing_to_do(
    geo: JournalGeometry,
    input: PassInput,
    target: Option<u32>,
    next: PassNext,
    free: u32,
)
    requires
        geo.wf(),
        input.wf(geo.superblock),
        call_ensures(CheckpointPass::start, (&geo, input, target), next),
        call_ensures(JournalGeometry::free_log_blocks, (&geo, input.head, input.tail_block), free),
    ensures
        next is Idle ==> input.tail_block is None || txns_left(input.committed_tid, input.tail_tid)
            == 0 || (target matches Some(wanted) && free >= wanted),
        next is Retire ==> false,
{
    let view: LogView = |p: int| Seq::new(4096, |i: int| 0u8);
    let env = input.env(geo, target);
    let pass = checkpointed(env, view, input.tail_block, input.tail_tid);
    assert(next.outcome(geo, view) == pass);
    if let Some(tail) = input.tail_block {
        let left = txns_left(input.committed_tid, input.tail_tid);
        if left > 0 && !(target matches Some(wanted) && free >= wanted) {
            assert(be32_at(view(tail as int), 0) == 0);
            strange_blocks_fail_the_transaction(
                env.sb,
                env.mapped,
                env.records,
                view,
                tail as int,
                input.tail_tid,
            );
            assert(pass == passed(env, view, tail as int, input.tail_tid, false, left));
            reveal(covers);
            assert(pass.result is Err);
        }
    }
}

/// An inode is registered once, with the data that was registered last; others stay
/// registered as they were.
pub proof fn data_is_registered_once(
    txn: &mut Transaction,
    data: OrderedData,
    other: OrderedData,
)
    requires
        old(txn).wf(),
        call_ensures(Transaction::register_ordered_data, (txn, data), ()),
    ensures
        final(txn).ordered@.contains(other) <==> other == data || other.ino != data.ino && old(
            txn,
        ).ordered@.contains(other),
        final(txn).captures == old(txn).captures,
        final(txn).revokes == old(txn).revokes,
        final(txn).nr_updates == old(txn).nr_updates,
{
    let before = old(txn).ordered@;
    let after = final(txn).ordered@;
    if is_registered(before, data.ino) {
        let i = choose|i: int| 0 <= i < before.len() && #[trigger] before[i].ino == data.ino;
        assert(after == before.update(i, data));
        assert(after[i] == data);
        if before.contains(other) && other.ino != data.ino {
            let j = choose|j: int| 0 <= j < before.len() && before[j] == other;
            assert(after[j] == other);
        }
        if after.contains(other) && other != data {
            let j = choose|j: int| 0 <= j < after.len() && after[j] == other;
            assert(before[j] == other);
            assert(j != i);
            if j < i {
                assert(before[j].ino != before[i].ino);
            } else {
                assert(before[i].ino != before[j].ino);
            }
        }
    } else {
        assert(after == before.push(data));
        assert(after[before.len() as int] == data);
        if before.contains(other) {
            let j = choose|j: int| 0 <= j < before.len() && before[j] == other;
            assert(after[j] == other);
        }
        if after.contains(other) && other != data {
            let j = choose|j: int| 0 <= j < after.len() && after[j] == other;
            assert(before[j] == other);
            assert(before[j].ino != data.ino);
        }
    }
}

} // verus!
