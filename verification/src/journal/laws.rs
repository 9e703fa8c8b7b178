//! What holds of a journal's state over each of its operations, told by what the
//! callers see of it.

use vstd::prelude::*;

use crate::error::Error;
use crate::journal::blockmap::Dated;
use crate::journal::chain::{blocks_for, footprint};
use crate::journal::checkpoint::{PassInput, Retirement};
use crate::journal::commit::{CommitAttempt, CommitPhase, CommitPlan};
use crate::journal::geometry::{in_ring, JournalGeometry};
use crate::journal::revoke::{
    recorded_all, recorded_revokes_suppress, revoke_capacity, revoke_entries_per_block, suppressed,
    RevokeTable,
};
use crate::journal::state::{
    commit_or_drain_tail, max_credits, pins_without, CommitAction, DrainStep, JournalState,
    PinnedFree,
};
use crate::journal::tag::{lemma_capacity, TagLayout};
use crate::journal::tid::Tid;
use crate::journal::transaction::{lemma_keys, Transaction};

verus! {

/// How far the id `a` is ahead of `b`, counting round.
pub open spec fn ahead(a: Tid, b: Tid) -> int {
    if a.0 >= b.0 {
        a.0 - b.0
    } else {
        a.0 - b.0 + 0x1_0000_0000
    }
}

/// Ids are counted round: after the largest comes zero. One is at or after another
/// if it is less than half the round ahead.
pub proof fn ids_are_counted_round(a: Tid, b: Tid, next: Tid, prev: Tid, geq: bool)
    requires
        call_ensures(Tid::next, (a,), next),
        call_ensures(Tid::prev, (a,), prev),
        call_ensures(Tid::geq, (a, b), geq),
    ensures
        a.0 < u32::MAX ==> next.0 == a.0 + 1,
        a.0 == u32::MAX ==> next.0 == 0,
        a.0 > 0 ==> prev.0 == a.0 - 1,
        a.0 == 0 ==> prev.0 == u32::MAX,
        geq <==> ahead(a, b) < 0x8000_0000,
{
}

/// A transaction may capture so many blocks that they fit the log with their
/// descriptors, with two blocks to spare, and no more.
pub proof fn credits_fill_the_log(geo: JournalGeometry, n: usize, tags: usize)
    requires
        geo.wf(),
        geo.superblock.maxlen - geo.superblock.first >= 2,
        call_ensures(max_credits, (&geo,), n),
        call_ensures(
            TagLayout::tags_per_descriptor,
            (&geo.superblock.tag_layout,),
            tags,
        ),
    ensures
        n * (tags + 1) <= tags * (geo.superblock.maxlen - geo.superblock.first - 2),
        (n + 1) * (tags + 1) > tags * (geo.superblock.maxlen - geo.superblock.first - 2),
{
    lemma_capacity(geo.superblock.tag_layout, 0);
    let t = tags as int;
    let room = geo.superblock.maxlen - geo.superblock.first - 2;
    let k = n as int;
    assert(k * (t + 1) <= t * room && (k + 1) * (t + 1) > t * room) by (nonlinear_arith)
        requires
            k == t * room / (t + 1),
            t > 0,
            room >= 0,
    ;
}

/// A commit takes one log block for each captured block, one for each descriptor and
/// revoke block that these fill, and one for its commit block.
pub proof fn footprints_count_every_block(
    geo: JournalGeometry,
    captures: nat,
    revokes: nat,
    tags: usize,
    entries: usize,
)
    requires
        geo.wf(),
        call_ensures(
            TagLayout::tags_per_descriptor,
            (&geo.superblock.tag_layout,),
            tags,
        ),
        call_ensures(
            revoke_entries_per_block,
            (&geo.superblock.tag_layout,),
            entries,
        ),
    ensures
        exists|d: nat, e: nat|
            {
                &&& footprint(geo.superblock.tag_layout, captures, revokes) == captures + 1
                    + #[trigger] together(d, e)
                &&& captures <= d * tags < captures + tags
                &&& revokes <= e * entries < revokes + entries
            },
{
    let layout = geo.superblock.tag_layout;
    lemma_capacity(layout, 0);
    let d = blocks_for(captures, layout.capacity());
    let e = blocks_for(revokes, revoke_capacity(layout));
    lemma_round_up(captures as int, tags as int);
    lemma_round_up(revokes as int, entries as int);
    assert(footprint(layout, captures, revokes) == captures + 1 + together(d, e));
}

/// So many descriptors and so many revoke blocks.
pub open spec fn together(d: nat, e: nat) -> nat {
    d + e
}

proof fn lemma_round_up(n: int, per: int)
    requires
        n >= 0,
        per > 0,
    ensures
        ((n + per - 1) / per) >= 0,
        n <= ((n + per - 1) / per) * per < n + per,
{
    assert(((n + per - 1) / per) >= 0 && n <= ((n + per - 1) / per) * per && ((n + per - 1) / per)
        * per < n + per) by (nonlinear_arith)
        requires
            n >= 0,
            per > 0,
    ;
}

/// A journal that was loaded has nothing under way. It is clean where its superblock
/// names no start, and goes on with the id that the superblock expects.
pub proof fn loaded_journals_are_idle(
    geo: JournalGeometry,
    state: JournalState,
    aborted: bool,
    stopped: bool,
)
    requires
        geo.wf(),
        call_ensures(JournalState::new, (&geo,), state),
        call_ensures(JournalState::is_aborted, (&state,), aborted),
        call_ensures(JournalState::is_stopped, (&state,), stopped),
    ensures
        state.wf(),
        state.running is None && state.locking is None && state.committing is None,
        state.next_tid == geo.superblock.sequence,
        state.tail_tid == geo.superblock.sequence,
        ahead(state.next_tid, state.committed_tid) == 1,
        state.tail_block is None <==> geo.superblock.start == 0,
        state.tail_block matches Some(tail) ==> tail == geo.superblock.start,
        state.head == geo.superblock.first,
        !aborted,
        !stopped,
        forall|b: u64| #[trigger] state.newest(b) is None,
        state.pinned_frees@.len() == 0,
{
}

/// What the commit thread is told: to leave, if it was asked to; to commit, if
/// nothing is being committed and the open transaction has captured something and no
/// operation is under way on it; and to do nothing else. An aborted journal commits
/// nothing.
pub proof fn commit_thread_is_told(state: JournalState, r: Option<CommitAction>)
    requires
        state.wf(),
        call_ensures(JournalState::poll_commit_action, (&state,), r),
    ensures
        r == Some(CommitAction::Exit) <==> state.stop,
        state.aborted && !state.stop ==> r is None,
        r == Some(CommitAction::Commit) ==> state.committing is None && (state.running is Some
            || state.locking is Some),
        forall|txn: Transaction|
            (state.running == Some(txn) || state.locking == Some(txn)) && !state.stop
                && !state.aborted && state.committing is None ==> (r == Some(CommitAction::Commit)
                <==> #[trigger] txn.nr_updates == 0 && txn.captures.entries@.len() > 0),
{
}

/// What moves into the committing slot is the open transaction as it is, and it is
/// locked. Nothing else is in the slot before, and the newest content of every block
/// stays known.
pub proof fn staging_keeps_the_contents(state: &mut JournalState, r: Option<Tid>, b: u64)
    requires
        old(state).wf(),
        call_ensures(JournalState::stage_commit, (state,), r),
    ensures
        r is None ==> *final(state) == *old(state),
        r matches Some(tid) ==> {
            let txn = if old(state).running is Some {
                old(state).running->0
            } else {
                old(state).locking->0
            };
            &&& old(state).committing is None
            &&& old(state).running is Some || old(state).locking is Some
            &&& txn.nr_updates == 0
            &&& tid == txn.tid
            &&& final(state).running is None
            &&& final(state).locking is None
            &&& final(state).committing matches Some(slot) && slot.txn == txn && slot.phase
                == CommitPhase::Locked
            &&& txn.captures@.dom().contains(b) ==> final(state).uncheckpointed@.dom().contains(b)
                && final(state).uncheckpointed@[b].tid == txn.tid && final(
                state).uncheckpointed@[b].value == txn.captures@[b]
            &&& !txn.captures@.dom().contains(b) ==> final(state).uncheckpointed@.dom().contains(b)
                == old(state).uncheckpointed@.dom().contains(b)
        },
        final(state).newest(b) == old(state).newest(b),
        final(state).head == old(state).head,
        final(state).tail_block == old(state).tail_block,
        final(state).committed_tid == old(state).committed_tid,
        final(state).pinned_frees == old(state).pinned_frees,
        final(state).revoked == old(state).revoked,
{
}

/// The phases of a commit come one after another, and none is left out.
pub proof fn phases_come_in_order(
    state: &mut JournalState,
    tid: Tid,
    phase: CommitPhase,
    r: Result<(), Error>,
)
    requires
        old(state).wf(),
        call_ensures(JournalState::advance_committing_phase, (state, tid, phase), r),
    ensures
        r is Err ==> r->Err_0 == Error::PhaseOrder && *final(state) == *old(state),
        r is Ok ==> old(state).committing is Some && final(state).committing is Some
            && old(state).committing->0.txn.tid == tid && final(state).committing->0.txn == old(
            state,
        ).committing->0.txn && final(state).committing->0.phase == phase,
        old(state).committing matches Some(slot) ==> slot.txn.tid == tid ==> (r is Ok <==> {
            ||| slot.phase == CommitPhase::Locked && phase == CommitPhase::Flush
            ||| slot.phase == CommitPhase::Flush && phase == CommitPhase::Commit
            ||| slot.phase == CommitPhase::Commit && phase == CommitPhase::CommitRecord
            ||| slot.phase == CommitPhase::CommitRecord && phase == CommitPhase::Finished
        }),
        final(state).running == old(state).running,
        final(state).head == old(state).head,
        final(state).aborted == old(state).aborted,
{
}

/// A commit is made known once its commit block is written, and then as a whole: its
/// id is the last one committed, the log goes on behind it, a clean log starts with
/// it, what it revoked is suppressed up to it, and its pins are gone, and no others.
pub proof fn commits_are_made_known(
    state: &mut JournalState,
    geo: JournalGeometry,
    plan: CommitPlan,
    r: Result<(), Error>,
    to: u32,
    b: u64,
    pin: PinnedFree,
)
    requires
        geo.wf(),
        old(state).wf(),
        old(state).placed(geo.superblock),
        in_ring(geo.superblock, plan.start as int),
        call_ensures(JournalState::publish_commit, (state, &geo, &plan), r),
        call_ensures(JournalGeometry::advance, (&geo, plan.start, plan.footprint), to),
    ensures
        r is Ok <==> old(state).committing is Some && old(state).committing->0.txn.tid == plan.tid
            && old(state).committing->0.phase == CommitPhase::CommitRecord,
        r is Err ==> *final(state) == *old(state) && r->Err_0 == Error::PhaseOrder,
        r is Ok ==> {
            &&& final(state).committed_tid == plan.tid
            &&& final(state).head == to
            &&& plan.was_clean ==> final(state).tail_block == Some(plan.start) && final(
                state).tail_tid == plan.tid
            &&& !plan.was_clean ==> final(state).tail_block == old(state).tail_block && final(
                state).tail_tid == old(state).tail_tid
            &&& final(state).committing is Some && final(state).committing->0.phase
                == CommitPhase::Finished
            &&& old(state).committing->0.txn.revokes@.dom().contains(b) ==> suppressed(
                final(state).revoked@,
                b,
                plan.tid,
            )
            &&& !old(state).committing->0.txn.revokes@.dom().contains(b) ==> (final(
                state).revoked@.dom().contains(b) == old(state).revoked@.dom().contains(b)) && (old(
                state,
            ).revoked@.dom().contains(b) ==> final(state).revoked@[b] == old(state).revoked@[b])
            &&& final(state).pinned_frees@.contains(pin) <==> old(state).pinned_frees@.contains(pin)
                && pin.tid != plan.tid
            &&& final(state).newest(b) == old(state).newest(b)
            &&& final(state).next_tid == old(state).next_tid
        },
{
    if r is Ok {
        let txn = old(state).committing->0.txn;
        lemma_keys(txn.revokes.entries@);
        if txn.revokes@.dom().contains(b) {
            assert(txn.revoked().to_set().contains(b));
            let i = choose|i: int| 0 <= i < txn.revoked().len() && txn.revoked()[i] == b;
            recorded_revokes_suppress(old(state).revoked@, txn.revoked(), plan.tid, i);
        } else {
            assert(!txn.revoked().to_set().contains(b));
            lemma_recorded_elsewhere(old(state).revoked@, txn.revoked(), plan.tid, b);
        }
        let pins = old(state).pinned_frees@;
        let keep = |pin: PinnedFree| pin.tid != plan.tid;
        assert(pins_without(pins, plan.tid) == pins.filter(keep));
        if pins.filter(keep).contains(pin) {
            let i = choose|i: int| 0 <= i < pins.filter(keep).len() && pins.filter(keep)[i] == pin;
            pins.lemma_filter_pred(keep, i);
            pins.lemma_filter_contains_rev(keep, pin);
        }
        if pins.contains(pin) && pin.tid != plan.tid {
            let i = choose|i: int| 0 <= i < pins.len() && pins[i] == pin;
            pins.lemma_filter_contains(keep, i);
        }
    }
}

proof fn lemma_recorded_elsewhere(
    records: Map<u64, Dated<()>>,
    blocks: Seq<u64>,
    tid: Tid,
    b: u64,
)
    requires
        !blocks.contains(b),
    ensures
        recorded_all(records, blocks, tid).dom().contains(b) == records.dom().contains(b),
        records.dom().contains(b) ==> recorded_all(records, blocks, tid)[b] == records[b],
    decreases blocks.len(),
{
    if blocks.len() > 0 {
        let init = blocks.drop_last();
        assert(blocks[blocks.len() - 1] != b);
        assert(!init.contains(b)) by {
            if init.contains(b) {
                let i = choose|i: int| 0 <= i < init.len() && init[i] == b;
                assert(blocks[i] == b);
            }
        }
        lemma_recorded_elsewhere(records, init, tid, b);
    }
}

/// The last commit before an unmount takes the open transaction if it has captured
/// something, though operations on it were not ended; one that has captured nothing is
/// dropped.
pub proof fn unmounts_take_what_was_captured(state: &mut JournalState, r: Option<Tid>, b: u64)
    requires
        old(state).wf(),
        old(state).committing is None,
        call_ensures(JournalState::stage_unmount, (state,), r),
    ensures
        final(state).running is None,
        final(state).locking is None,
        final(state).newest(b) == old(state).newest(b),
        r is Some <==> final(state).committing is Some,
        r is Some ==> final(state).committing->0.txn.tid == r->0 && final(
            state).committing->0.phase == CommitPhase::Locked,
        forall|txn: Transaction|
            (old(state).running == Some(txn) || old(state).locking == Some(txn)) ==> (r is Some
                <==> #[trigger] txn.captures.entries@.len() > 0) && (r is Some
                ==> final(state).committing->0.txn == txn),
        old(state).running is None && old(state).locking is None ==> r is None,
        final(state).head == old(state).head,
        final(state).committed_tid == old(state).committed_tid,
{
}

/// Aborting a journal, or asking its thread to leave, changes nothing else.
pub proof fn aborts_change_nothing_else(state: &mut JournalState)
    requires
        old(state).wf(),
        call_ensures(JournalState::abort, (state,), ()),
    ensures
        final(state).aborted,
        final(state).stop == old(state).stop,
        final(state).running == old(state).running,
        final(state).locking == old(state).locking,
        final(state).committing == old(state).committing,
        final(state).head == old(state).head,
        final(state).tail_block == old(state).tail_block,
        final(state).committed_tid == old(state).committed_tid,
        final(state).uncheckpointed == old(state).uncheckpointed,
        final(state).pinned_frees == old(state).pinned_frees,
{
}

/// Asking the commit thread to leave changes nothing else.
pub proof fn stops_change_nothing_else(state: &mut JournalState)
    requires
        old(state).wf(),
        call_ensures(JournalState::request_stop, (state,), ()),
    ensures
        final(state).stop,
        final(state).aborted == old(state).aborted,
        final(state).running == old(state).running,
        final(state).locking == old(state).locking,
        final(state).committing == old(state).committing,
        final(state).head == old(state).head,
        final(state).uncheckpointed == old(state).uncheckpointed,
{
}

/// The transaction in the committing slot is committed where it fits, and there has
/// to be one.
pub proof fn slots_are_committed(
    state: JournalState,
    geo: JournalGeometry,
    r: Result<CommitAttempt, Error>,
    free: u32,
)
    requires
        geo.wf(),
        state.wf(),
        state.placed(geo.superblock),
        call_ensures(JournalState::attempt_commit, (&state, &geo), r),
        call_ensures(
            JournalGeometry::free_log_blocks,
            (&geo, state.head, state.tail_block),
            free,
        ),
    ensures
        state.committing is None ==> r == Err::<CommitAttempt, Error>(Error::PhaseOrder),
        state.committing matches Some(slot) ==> {
            &&& r matches Ok(CommitAttempt::Ready(plan)) ==> plan.tid == slot.txn.tid && plan.start
                == state.head && plan.footprint <= free && (plan.was_clean
                <==> state.tail_block is None)
            &&& r matches Ok(CommitAttempt::NeedsLogSpace) ==> footprint(
                geo.superblock.tag_layout,
                slot.txn.images().len(),
                slot.txn.revoked().len(),
            ) > free
        },
{
}

/// A log that is not clean has to start in the ring.
pub proof fn logs_start_in_the_ring(geo: JournalGeometry, r: bool)
    requires
        call_ensures(JournalGeometry::starts_in_ring, (&geo,), r),
    ensures
        r <==> geo.superblock.start == 0 || geo.superblock.first <= geo.superblock.start
            < geo.superblock.maxlen,
{
}

/// A commit that ends leaves the slot, and one that has failed aborts the journal.
pub proof fn failed_commits_abort(state: &mut JournalState, failed: bool)
    requires
        old(state).wf(),
        call_ensures(JournalState::finish_commit, (state, failed), ()),
    ensures
        final(state).committing is None,
        failed ==> final(state).aborted,
        !failed ==> final(state).aborted == old(state).aborted,
        final(state).stop == old(state).stop,
        final(state).running == old(state).running,
        final(state).locking == old(state).locking,
        final(state).committed_tid == old(state).committed_tid,
        final(state).head == old(state).head,
        final(state).tail_block == old(state).tail_block,
        final(state).uncheckpointed == old(state).uncheckpointed,
        final(state).revoked == old(state).revoked,
        final(state).pinned_frees == old(state).pinned_frees,
{
}

/// Who waits for a commit waits until it is there. What is committed stays so, and
/// what is not committed when the journal aborts never will be.
pub proof fn commits_are_waited_for(state: JournalState, target: Tid, r: Option<Result<(), Error>>)
    requires
        call_ensures(JournalState::poll_log_commit, (&state, target), r),
    ensures
        r == Some(Ok::<(), Error>(())) <==> ahead(state.committed_tid, target) < 0x8000_0000,
        r == Some(Err::<(), Error>(Error::NeverCommits)) <==> ahead(state.committed_tid, target)
            >= 0x8000_0000 && state.aborted,
        r is None <==> ahead(state.committed_tid, target) >= 0x8000_0000 && !state.aborted,
{
}

/// Who waits for room in a transaction waits until it is committed or room was given
/// back, and is told when the journal aborts.
pub proof fn room_is_waited_for(
    state: JournalState,
    tid: Tid,
    epoch: u64,
    r: Option<Result<(), Error>>,
)
    requires
        call_ensures(JournalState::poll_transaction_room, (&state, tid, epoch), r),
    ensures
        state.aborted <==> r == Some(Err::<(), Error>(Error::AbortedWaitingForRoom)),
        r == Some(Ok::<(), Error>(())) <==> !state.aborted && (ahead(state.committed_tid, tid)
            < 0x8000_0000 || state.credit_release_epoch != epoch),
        r is None || r == Some(Ok::<(), Error>(())) || state.aborted,
{
}

/// Giving room back is noticed by all who wait for it.
pub proof fn released_room_is_noticed(
    state: &mut JournalState,
    tid: Tid,
    r: Option<Result<(), Error>>,
)
    requires
        old(state).wf(),
        call_ensures(JournalState::note_credits_released, (state,), ()),
        call_ensures(
            JournalState::poll_transaction_room,
            (&*final(state), tid, old(state).credit_release_epoch),
            r,
        ),
    ensures
        r is Some,
        !old(state).aborted ==> r == Some(Ok::<(), Error>(())),
        final(state).running == old(state).running,
        final(state).committing == old(state).committing,
{
}

/// A sync of everything waits for the open transaction if that has captured
/// something, or else for the one that is being committed. If there is neither,
/// everything is durable; but an aborted journal does not say so.
pub proof fn everything_is_waited_for(state: JournalState, r: Result<Option<Tid>, Error>)
    requires
        state.wf(),
        call_ensures(JournalState::sync_target, (&state,), r),
    ensures
        forall|txn: Transaction|
            (state.running == Some(txn) || state.locking == Some(txn))
                && #[trigger] txn.captures.entries@.len() > 0 ==> r == Ok::<Option<Tid>, Error>(
                Some(txn.tid),
            ),
        (state.running matches Some(txn) ==> txn.captures.entries@.len() == 0) && (
        state.locking matches Some(txn) ==> txn.captures.entries@.len() == 0) ==> {
            &&& state.committing matches Some(slot) ==> r == Ok::<Option<Tid>, Error>(
                Some(slot.txn.tid),
            )
            &&& state.committing is None && state.aborted ==> r == Err::<Option<Tid>, Error>(
                Error::Aborted,
            )
            &&& state.committing is None && !state.aborted ==> r == Ok::<Option<Tid>, Error>(None)
        },
{
}

/// An aborted journal is not checkpointed as a whole.
pub proof fn aborted_journals_are_let_be(state: JournalState, r: Result<(), Error>)
    requires
        call_ensures(JournalState::check_checkpoint, (&state,), r),
    ensures
        r is Err <==> state.aborted,
        r matches Err(e) ==> e == Error::AbortedNoCheckpoint,
{
}

/// A checkpoint starts at the tail, up to the last committed transaction, and minds
/// what transactions that are not committed have revoked: those that are open, and
/// the one that is being committed.
pub proof fn checkpoints_start_from_the_state(state: JournalState, input: PassInput, b: u64)
    requires
        state.wf(),
        call_ensures(JournalState::checkpoint_input, (&state,), input),
    ensures
        input.tail_block == state.tail_block,
        input.tail_tid == state.tail_tid,
        input.committed_tid == state.committed_tid,
        input.head == state.head,
        input.revoked@ == state.revoked@,
        input.unpublished@.dom().contains(b) <==> {
            ||| state.running matches Some(txn) && txn.revokes@.dom().contains(b)
            ||| state.locking matches Some(txn) && txn.revokes@.dom().contains(b)
            ||| state.committing matches Some(slot) && slot.txn.revokes@.dom().contains(b)
        },
{
}

/// When a checkpoint is made known, the tail is where the pass stopped, or nowhere if
/// nothing was left; and of the images and revokes those are dropped whose
/// transactions came home, and no others.
pub proof fn checkpoints_are_made_known(state: &mut JournalState, end: Retirement, b: u64)
    requires
        old(state).wf(),
        call_ensures(JournalState::finish_checkpoint, (state, &end), ()),
    ensures
        end.stopped_early ==> final(state).tail_block == Some(end.log),
        !end.stopped_early ==> final(state).tail_block is None,
        final(state).tail_tid == end.tid,
        old(state).uncheckpointed@.dom().contains(b) ==> (final(
            state).uncheckpointed@.dom().contains(b) <==> !home_by(
            end,
            old(state).uncheckpointed@[b].tid,
        )),
        final(state).uncheckpointed@.dom().contains(b) ==> old(
            state,
        ).uncheckpointed@.dom().contains(b) && final(state).uncheckpointed@[b] == old(
            state,
        ).uncheckpointed@[b],
        old(state).revoked@.dom().contains(b) ==> (final(state).revoked@.dom().contains(b)
            <==> !home_by(end, old(state).revoked@[b].tid)),
        final(state).revoked@.dom().contains(b) ==> old(state).revoked@.dom().contains(b) && final(
            state).revoked@[b] == old(state).revoked@[b],
        final(state).head == old(state).head,
        final(state).committed_tid == old(state).committed_tid,
        final(state).running == old(state).running,
        final(state).committing == old(state).committing,
        final(state).pinned_frees == old(state).pinned_frees,
{
}

/// Whether the transaction `tid` is before the one in front of which a pass has
/// stopped.
pub open spec fn home_by(end: Retirement, tid: Tid) -> bool {
    0 < ahead(end.tid, tid) <= 0x8000_0000
}

/// A commit that finds no room checkpoints the log once, and gives up if there is
/// none then.
pub proof fn commits_drain_once(
    drained: bool,
    attempt: Result<CommitAttempt, Error>,
    step: DrainStep,
)
    requires
        call_ensures(commit_or_drain_tail, (drained, attempt), step),
    ensures
        step is Drain <==> (attempt matches Ok(CommitAttempt::NeedsLogSpace)) && !drained,
        attempt matches Ok(CommitAttempt::Ready(plan)) ==> step == DrainStep::Run(plan),
        attempt matches Err(e) ==> step == DrainStep::Failed(e),
        (attempt matches Ok(CommitAttempt::NeedsLogSpace)) && drained ==> step == DrainStep::Failed(
            Error::NoRoomAfterDrain,
        ),
{
}

/// A revoke suppresses the images of its transaction and of all before it, and of no
/// other block. Recording it takes back none of what was suppressed.
pub proof fn revokes_suppress_what_is_older(
    table: &mut RevokeTable,
    blocknr: u64,
    tid: Tid,
    other: u64,
    image: Tid,
    was: bool,
    is: bool,
    own: bool,
)
    requires
        old(table).wf(),
        call_ensures(RevokeTable::record, (table, blocknr, tid), ()),
        call_ensures(RevokeTable::suppresses, (&*old(table), other, image), was),
        call_ensures(RevokeTable::suppresses, (&*final(table), other, image), is),
        call_ensures(RevokeTable::suppresses, (&*final(table), blocknr, tid), own),
        final(table).wf(),
    ensures
        own,
        other != blocknr ==> is == was,
        !old(table)@.dom().contains(blocknr) && other == blocknr ==> (is <==> ahead(tid, image)
            < 0x8000_0000),
        !old(table)@.dom().contains(other) ==> !was,
        old(table)@.dom().contains(other) ==> (was <==> ahead(old(table)@[other].tid, image)
            < 0x8000_0000),
{
}

} // verus!
