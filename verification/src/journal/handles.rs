//! What operations see of the journal through their handles: which transaction they
//! join, what they find in a block, and what freeing a block does.

use vstd::prelude::*;

use crate::bytes::BLOCK_SIZE;
use crate::error::Error;
use crate::journal::access::{AccessStep, ForgetKind, LiveAccess, OpHandle, WriteAccess};
use crate::journal::state::{captured_in, JournalState, PinnedFree};
use crate::journal::tid::Tid;
use crate::journal::transaction::Transaction;

verus! {

/// Whether `after` has the transactions of `before` but for the open one, and all
/// else as it was.
pub open spec fn only_open_moves(before: JournalState, after: JournalState) -> bool {
    &&& after.running is Some == before.running is Some
    &&& after.locking is Some == before.locking is Some
    &&& after.committing == before.committing
    &&& after.next_tid == before.next_tid
    &&& after.head == before.head
    &&& after.tail_block == before.tail_block
    &&& after.tail_tid == before.tail_tid
    &&& after.committed_tid == before.committed_tid
    &&& after.uncheckpointed == before.uncheckpointed
    &&& after.revoked == before.revoked
    &&& after.aborted == before.aborted
    &&& after.stop == before.stop
}

/// An operation joins the running transaction, or starts one with the next id. It is
/// made to wait while a transaction is being locked, and refused once the journal is
/// aborted. The transaction then counts one more operation, and holds what it held.
pub proof fn operations_join(
    state: &mut JournalState,
    r: Result<Option<OpHandle>, Error>,
    next: Tid,
)
    requires
        old(state).wf(),
        old(state).running matches Some(txn) ==> txn.nr_updates < u32::MAX,
        call_ensures(JournalState::begin_op, (state,), r),
        call_ensures(Tid::next, (old(state).next_tid,), next),
    ensures
        old(state).aborted <==> r == Err::<Option<OpHandle>, Error>(Error::ReadOnly),
        r is Err ==> old(state).aborted && *final(state) == *old(state),
        !old(state).aborted && old(state).locking is Some <==> r == Ok::<Option<OpHandle>, Error>(
            None,
        ),
        r == Ok::<Option<OpHandle>, Error>(None) ==> *final(state) == *old(state),
        r matches Ok(Some(handle)) ==> {
            &&& final(state).running is Some
            &&& handle.handle == Some(final(state).running->0.tid)
            &&& final(state).committing == old(state).committing
            &&& final(state).head == old(state).head
            &&& final(state).tail_block == old(state).tail_block
            &&& final(state).uncheckpointed == old(state).uncheckpointed
            &&& old(state).running matches Some(txn) ==> {
                &&& final(state).running->0.tid == txn.tid
                &&& final(state).running->0.nr_updates == txn.nr_updates + 1
                &&& final(state).running->0.captures == txn.captures
                &&& final(state).running->0.revokes == txn.revokes
                &&& final(state).running->0.ordered == txn.ordered
                &&& final(state).next_tid == old(state).next_tid
            }
            &&& old(state).running is None ==> {
                &&& final(state).running->0.tid == old(state).next_tid
                &&& final(state).running->0.nr_updates == 1
                &&& final(state).running->0.images().len() == 0
                &&& final(state).next_tid == next
            }
        },
{
}

/// Opening a handle is refused by an aborted journal under its own error, and is
/// otherwise what beginning an operation is.
pub proof fn handles_are_opened(state: &mut JournalState, r: Result<Option<OpHandle>, Error>)
    requires
        old(state).wf(),
        old(state).running matches Some(txn) ==> txn.nr_updates < u32::MAX,
        call_ensures(JournalState::open_op, (state,), r),
    ensures
        old(state).aborted <==> r == Err::<Option<OpHandle>, Error>(Error::Aborted),
        r is Err ==> old(state).aborted,
        !old(state).aborted && old(state).locking is None <==> (r matches Ok(Some(_))),
        r matches Ok(Some(handle)) ==> final(state).running is Some && handle.handle == Some(
            final(state).running->0.tid,
        ) && final(state).running->0.nr_updates > 0,
{
}

/// An operation that ends is counted off its transaction, which has to be open. On a
/// volume without a journal there is nothing to count.
pub proof fn operations_leave(state: &mut JournalState, handle: OpHandle, r: Result<(), Error>)
    requires
        old(state).wf(),
        call_ensures(JournalState::close_op, (state, handle), r),
    ensures
        handle.handle is None ==> r is Ok && *final(state) == *old(state),
        handle.handle matches Some(tid) ==> ((old(state).running matches Some(txn) && txn.tid != tid)
            ==> r is Err),
        old(state).running is None && old(state).locking is None && handle.handle is Some
            ==> r is Err,
        r is Err ==> r->Err_0 == Error::HandleOutlivedTransaction && *final(state) == *old(state),
        r is Ok && handle.handle is Some ==> {
            &&& only_open_moves(*old(state), *final(state))
            &&& final(state).open_txn()->0.nr_updates + 1 == old(state).open_txn()->0.nr_updates
            &&& final(state).open_txn()->0.captures == old(state).open_txn()->0.captures
            &&& final(state).open_txn()->0.revokes == old(state).open_txn()->0.revokes
        },
        old(state).running matches Some(txn) ==> (handle.handle == Some(txn.tid) && txn.nr_updates
            > 0 ==> r is Ok),
{
}

/// Locking the running transaction keeps all of it, and what it has captured stays the
/// newest content.
pub proof fn locked_transactions_are_kept(state: &mut JournalState, b: u64)
    requires
        old(state).wf(),
        call_ensures(JournalState::lock_running, (state,), ()),
    ensures
        final(state).running is None,
        old(state).running is Some ==> final(state).locking == old(state).running,
        old(state).running is None ==> final(state).locking == old(state).locking,
        final(state).newest(b) == old(state).newest(b),
        final(state).committing == old(state).committing,
        final(state).head == old(state).head,
{
}

/// A block that is to be changed starts from its newest content: what the open
/// transaction has of it, or else what a transaction has that is not home yet.
/// Without either it has to be read. Only a handle on the open transaction gets it.
pub proof fn changes_start_from_the_newest(
    state: &mut JournalState,
    handle: OpHandle,
    blocknr: u64,
    r: Result<AccessStep, Error>,
    seen: Option<[u8; BLOCK_SIZE]>,
    found: Option<[u8; BLOCK_SIZE]>,
    other: u64,
)
    requires
        old(state).wf(),
        call_ensures(JournalState::get_write_access, (state, handle, blocknr), r),
        call_ensures(JournalState::newest_bytes, (&*old(state), blocknr), seen),
        call_ensures(JournalState::newest_bytes, (&*final(state), blocknr), found),
        final(state).wf(),
    ensures
        handle.handle is None ==> r == Ok::<AccessStep, Error>(
            AccessStep::Ready(WriteAccess { live: None }),
        ) && *final(state) == *old(state),
        handle.handle matches Some(tid) ==> {
            let open = old(state).open_txn();
            &&& !(open is Some && open->0.tid == tid) <==> r == Err::<AccessStep, Error>(
                Error::HandleOutlivedTransaction,
            )
            &&& open is Some && open->0.tid == tid && seen is None ==> r == Ok::<
                AccessStep,
                Error,
            >(AccessStep::NeedsBlock) && *final(state) == *old(state)
            &&& open is Some && open->0.tid == tid && seen is Some ==> {
                &&& r == Ok::<AccessStep, Error>(
                    AccessStep::Ready(WriteAccess { live: Some(LiveAccess { tid, blocknr }) }),
                )
                &&& found is Some
                &&& found->0@ == seen->0@
                &&& captured_in(final(state).open_txn(), blocknr) == Some(seen->0@)
                &&& !final(state).open_txn()->0.revokes@.dom().contains(blocknr)
                &&& other != blocknr ==> final(state).newest(other) == old(state).newest(other)
                &&& only_open_moves(*old(state), *final(state))
            }
        },
{
}

/// What was read of a block at home seeds it, unless something newer has come up; a
/// new block starts as zeros, whatever is known of it.
pub proof fn blocks_are_seeded(
    state: &mut JournalState,
    tid: Tid,
    blocknr: u64,
    home: [u8; BLOCK_SIZE],
    r: Result<WriteAccess, Error>,
    other: u64,
)
    requires
        old(state).wf(),
        old(state).open_txn() is Some,
        old(state).open_txn()->0.tid == tid,
        call_ensures(
            JournalState::seed_write_access,
            (state, OpHandle { handle: Some(tid) }, blocknr, home),
            r,
        ),
    ensures
        r == Ok::<WriteAccess, Error>(WriteAccess { live: Some(LiveAccess { tid, blocknr }) }),
        old(state).newest(blocknr) is None ==> final(state).newest(blocknr) == Some(home@),
        old(state).newest(blocknr) is Some ==> final(state).newest(blocknr) == old(state).newest(
            blocknr,
        ),
        captured_in(final(state).open_txn(), blocknr) is Some,
        other != blocknr ==> final(state).newest(other) == old(state).newest(other),
        !final(state).open_txn()->0.revokes@.dom().contains(blocknr),
        only_open_moves(*old(state), *final(state)),
{
}

/// A new block starts as zeros, and a revoke of it in the same transaction is
/// cancelled.
pub proof fn new_blocks_are_zeros(
    state: &mut JournalState,
    tid: Tid,
    blocknr: u64,
    r: Result<WriteAccess, Error>,
    i: int,
    other: u64,
)
    requires
        old(state).wf(),
        old(state).open_txn() is Some,
        old(state).open_txn()->0.tid == tid,
        call_ensures(
            JournalState::get_create_access,
            (state, OpHandle { handle: Some(tid) }, blocknr),
            r,
        ),
        0 <= i < 4096,
    ensures
        r == Ok::<WriteAccess, Error>(WriteAccess { live: Some(LiveAccess { tid, blocknr }) }),
        final(state).newest(blocknr) is Some,
        final(state).newest(blocknr)->0.len() == 4096,
        final(state).newest(blocknr)->0[i] == 0,
        !final(state).open_txn()->0.revokes@.dom().contains(blocknr),
        other != blocknr ==> final(state).newest(other) == old(state).newest(other),
        only_open_moves(*old(state), *final(state)),
{
}

/// A patch changes the bytes it names and no others, of a block that was captured in
/// the open transaction; anything else is refused and changes nothing.
pub proof fn patches_are_local(
    state: &mut JournalState,
    tid: Tid,
    blocknr: u64,
    offset: usize,
    bytes: &[u8],
    r: Result<(), Error>,
    i: int,
    other: u64,
)
    requires
        old(state).wf(),
        offset + bytes@.len() <= 4096,
        call_ensures(
            JournalState::patch,
            (state, WriteAccess { live: Some(LiveAccess { tid, blocknr }) }, offset, bytes),
            r,
        ),
        0 <= i < 4096,
    ensures
        ({
            let open = old(state).open_txn();
            let mine = open is Some && open->0.tid == tid;
            &&& !mine <==> r == Err::<(), Error>(Error::HandleOutlivedTransaction)
            &&& mine && captured_in(open, blocknr) is None <==> r == Err::<(), Error>(
                Error::NotCaptured,
            )
            &&& r is Err ==> *final(state) == *old(state)
            &&& r is Ok ==> {
                let was = captured_in(open, blocknr)->0;
                let is = captured_in(final(state).open_txn(), blocknr);
                &&& is is Some
                &&& is->0.len() == was.len()
                &&& offset <= i < offset + bytes@.len() ==> is->0[i] == bytes@[i - offset]
                &&& i < offset || offset + bytes@.len() <= i ==> is->0[i] == was[i]
                &&& final(state).newest(blocknr) == is
                &&& other != blocknr ==> final(state).newest(other) == old(state).newest(other)
                &&& only_open_moves(*old(state), *final(state))
            }
        }),
{
    if captured_in(old(state).open_txn(), blocknr) is Some {
        assert(captured_in(old(state).open_txn(), blocknr)->0.len() == 4096);
    }
}

/// Freed metadata is no longer captured but revoked, and is pinned until its
/// transaction commits; file data is let be. What other blocks hold does not change.
pub proof fn freed_blocks_are_revoked(
    state: &mut JournalState,
    handle: OpHandle,
    kind: ForgetKind,
    blocknr: u64,
    r: Result<(), Error>,
    other: u64,
)
    requires
        old(state).wf(),
        call_ensures(JournalState::forget, (state, handle, kind, blocknr), r),
    ensures
        handle.handle is None || kind == ForgetKind::Data ==> r is Ok && *final(state) == *old(
            state,
        ),
        handle.handle matches Some(tid) ==> (kind == ForgetKind::Metadata ==> {
            let open = old(state).open_txn();
            let mine = open is Some && open->0.tid == tid;
            &&& mine <==> r is Ok
            &&& r is Err ==> r->Err_0 == Error::HandleOutlivedTransaction && *final(state) == *old(
                state,
            )
            &&& r is Ok ==> {
                let now = final(state).open_txn()->0;
                &&& captured_in(final(state).open_txn(), blocknr) is None
                &&& now.revokes@.dom().contains(blocknr)
                &&& other != blocknr ==> now.revokes@.dom().contains(other)
                    == open->0.revokes@.dom().contains(other)
                &&& other != blocknr ==> captured_in(final(state).open_txn(), other) == captured_in(
                    open,
                    other,
                )
                &&& final(state).pinned_frees@ == old(state).pinned_frees@.push(
                    PinnedFree { tid, start: blocknr, count: 1 },
                )
                &&& now.tid == open->0.tid
                &&& now.nr_updates == open->0.nr_updates
                &&& only_open_moves(*old(state), *final(state))
            }
        }),
{
}

/// A reader finds what the open transaction has of a block, or else what is kept of
/// it from a transaction that is not home yet.
pub proof fn readers_find_the_newest(state: JournalState, blocknr: u64, r: Option<[u8; BLOCK_SIZE]>)
    requires
        state.wf(),
        call_ensures(JournalState::newest_bytes, (&state, blocknr), r),
    ensures
        forall|txn: Transaction|
            (state.running == Some(txn) || state.locking == Some(txn))
                && #[trigger] txn.captures@.dom().contains(blocknr) ==> r is Some && r->0@ == (
            *txn.captures@[blocknr])@,
        (state.running matches Some(txn) ==> !txn.captures@.dom().contains(blocknr)) && (
        state.locking matches Some(txn) ==> !txn.captures@.dom().contains(blocknr)) ==> {
            &&& r is Some <==> state.uncheckpointed@.dom().contains(blocknr)
            &&& r is Some ==> r->0@ == (*state.uncheckpointed@[blocknr].value)@
        },
{
}

} // verus!
