//! The journal's state, and the decisions that are made on it: when a
//! transaction is committed, what a commit and a checkpoint change, what a
//! waiter waits for, and where the newest content of a block is.
//!
//! Locks, threads and sleeping are the caller's.

use vstd::prelude::*;

use crate::bytes::BLOCK_SIZE;
use crate::error::Error;
use crate::journal::blockmap::{
    increasing, lemma_entry_in_map, occurs, place_of, retired, BlockMap, Dated, Entry,
};
use crate::journal::chain::{blocks_for, footprint};
use crate::journal::checkpoint::{PassInput, Retirement};
use crate::journal::commit::{
    commit_fault, phase_follows, try_commit_transaction, txn_footprint, CommitAttempt, CommitPhase,
    CommitPlan,
};
use crate::journal::geometry::{
    in_ring, ring_advance, ring_advance_is_modular, ring_free, ring_size, JournalGeometry,
};
use crate::journal::revoke::{recorded_all, revoke_capacity, RevokeTable};
use crate::journal::superblock::JournalSuperblock;
use crate::journal::tag::lemma_capacity;
use crate::journal::tid::{tid_geq, tid_prev, Tid};
use crate::journal::transaction::{captured, Transaction};

verus! {

/// The most blocks that one transaction may capture: so many that its
/// descriptors and its commit block fit the log beside them.
pub fn max_credits(geo: &JournalGeometry) -> (n: usize)
    requires
        geo.wf(),
    ensures
        n == credit_limit(geo.superblock),
{
    let usable: u64 = (geo.maxlen() - geo.first()) as u64;
    let tags: u64 = geo.tag_layout().tags_per_descriptor() as u64;
    proof {
        lemma_capacity(geo.superblock.tag_layout, 0);
        lemma_credit_limit(geo.superblock, 0);
    }
    let spare: u64 = if usable >= 2 {
        usable - 2
    } else {
        0
    };
    assert(tags * spare <= 508 * 0x1_0000_0000) by (nonlinear_arith)
        requires
            tags <= 508,
            spare <= 0xFFFF_FFFF,
    ;
    (tags * spare / (tags + 1)) as usize
}

/// The most blocks that one transaction may capture.
pub open spec fn credit_limit(sb: JournalSuperblock) -> nat {
    let tags = sb.tag_layout.capacity() as int;
    let spare = if ring_size(sb) >= 2 {
        ring_size(sb) - 2
    } else {
        0
    };
    (tags * spare / (tags + 1)) as nat
}

proof fn lemma_credit_limit(sb: JournalSuperblock, n: nat)
    requires
        sb.wf(),
        n <= credit_limit(sb),
    ensures
        n + blocks_for(n, sb.tag_layout.capacity()) + 1 <= ring_size(sb),
        credit_limit(sb) <= ring_size(sb),
{
    let t = sb.tag_layout.capacity() as int;
    let u = ring_size(sb);
    lemma_capacity(sb.tag_layout, 0);
    let spare = if u >= 2 {
        u - 2
    } else {
        0
    };
    let c = t * spare / (t + 1);
    assert(0 <= c && c * (t + 1) <= t * spare) by (nonlinear_arith)
        requires
            c == t * spare / (t + 1),
            t > 0,
            spare >= 0,
    ;
    assert(c <= spare) by (nonlinear_arith)
        requires
            c * (t + 1) <= t * spare,
            t > 0,
            spare >= 0,
    ;
    assert(n * (t + 1) <= t * spare) by (nonlinear_arith)
        requires
            0 <= n <= c,
            c * (t + 1) <= t * spare,
            t > 0,
    ;
    let d = (n + t - 1) / t;
    assert(d * t <= n + t - 1) by (nonlinear_arith)
        requires
            d == (n + t - 1) / t,
            t > 0,
    ;
    assert(n + d <= spare) by (nonlinear_arith)
        requires
            d * t <= n + t - 1,
            n * (t + 1) <= t * spare,
            t > 0,
            n >= 0,
            spare >= 0,
    {
        // t * (n + d) <= n * t + n + t - 1 <= t * spare + t - 1
        assert(t * (n + d) <= t * spare + t - 1) by (nonlinear_arith)
            requires
                d * t <= n + t - 1,
                n * (t + 1) <= t * spare,
        ;
        assert(n + d >= spare + 1 ==> t * (n + d) >= t * spare + t) by (nonlinear_arith)
            requires
                t > 0,
        ;
    }
}

/// A transaction within the limit of credits fits the log when the log is
/// empty, with its descriptors and its commit block.
pub proof fn credits_fit_the_log(sb: JournalSuperblock, captures: nat)
    requires
        sb.wf(),
        captures <= credit_limit(sb),
    ensures
        footprint(sb.tag_layout, captures, 0) <= ring_size(sb),
{
    lemma_credit_limit(sb, captures);
    assert(blocks_for(0, revoke_capacity(sb.tag_layout)) == 0) by {
        let p = revoke_capacity(sb.tag_layout) as int;
        assert(p > 0);
        vstd::arithmetic::div_mod::lemma_basic_div(p - 1, p);
    }
}

/// The transaction that is being committed.
pub struct Committing {
    pub txn: Transaction,
    pub phase: CommitPhase,
}

/// Blocks that were freed, and that must not be allocated again before the
/// transaction that freed them is committed.
#[derive(Clone, Copy, Debug, PartialEq, Eq, Structural)]
pub struct PinnedFree {
    pub tid: Tid,
    pub start: u64,
    pub count: u32,
}

/// The pins of the transactions other than `tid`.
pub open spec fn pins_without(pins: Seq<PinnedFree>, tid: Tid) -> Seq<PinnedFree> {
    pins.filter(|pin: PinnedFree| pin.tid != tid)
}

/// What the commit thread is to do.
#[derive(Clone, Copy, Debug, PartialEq, Eq, Structural)]
pub enum CommitAction {
    /// Leave.
    Exit,
    /// Commit the transaction that is ready.
    Commit,
}

/// The state of a journal.
pub struct JournalState {
    /// The transaction that operations add to.
    pub running: Option<Transaction>,
    /// A transaction that takes no new operations, and waits for those under
    /// way. None is running beside it.
    pub locking: Option<Transaction>,
    /// The transaction that is being committed.
    pub committing: Option<Committing>,
    /// The id of the next transaction.
    pub next_tid: Tid,
    /// The log block where the next commit starts.
    pub head: u32,
    /// Where the oldest transaction starts that still has to be checkpointed.
    /// There is none when the log is clean.
    pub tail_block: Option<u32>,
    /// The oldest transaction that still has to be checkpointed.
    pub tail_tid: Tid,
    /// The last committed transaction.
    pub committed_tid: Tid,
    /// The newest content of each block that has left the running transaction
    /// and is not home yet.
    pub uncheckpointed: BlockMap<Dated<Box<[u8; BLOCK_SIZE]>>>,
    /// What committed transactions have revoked.
    pub revoked: RevokeTable,
    /// Freed blocks that must not be allocated yet.
    pub pinned_frees: Vec<PinnedFree>,
    /// Counts how often room was given back to the running transaction.
    pub credit_release_epoch: u64,
    /// The commit thread is to leave.
    pub stop: bool,
    /// A commit was lost, and the journal takes no more work.
    pub aborted: bool,
}

/// The images of a map with those of a transaction, which are newer.
pub open spec fn stashed(
    images: Map<u64, Dated<Box<[u8; BLOCK_SIZE]>>>,
    txn: Transaction,
) -> Map<u64, Dated<Box<[u8; BLOCK_SIZE]>>> {
    images.union_prefer_right(
        txn.captures@.map_values(
            |block: Box<[u8; BLOCK_SIZE]>| Dated { tid: txn.tid, value: block },
        ),
    )
}

/// What a transaction, if there is one, has captured of a block.
pub open spec fn captured_in(txn: Option<Transaction>, blocknr: u64) -> Option<Seq<u8>> {
    match txn {
        Some(txn) => if captured(txn.captures).dom().contains(blocknr) {
            Some(captured(txn.captures)[blocknr])
        } else {
            None
        },
        None => None,
    }
}

/// What a transaction, if there is one, has revoked.
pub open spec fn revoked_in(txn: Option<Transaction>) -> Set<u64> {
    match txn {
        Some(txn) => txn.revokes@.dom(),
        None => Set::empty(),
    }
}

/// Keeps the images of a transaction that leaves the running state.
pub fn stash_uncheckpointed(
    images: &mut BlockMap<Dated<Box<[u8; BLOCK_SIZE]>>>,
    txn: &Transaction,
)
    requires
        old(images).wf(),
        txn.wf(),
    ensures
        final(images).wf(),
        final(images)@ == stashed(old(images)@, *txn),
{
    let ghost before = images@;
    let ghost entries = txn.captures.entries@;
    let mut i: usize = 0;
    assert(images@ =~= stashed_entries(before, txn.tid, entries.take(0)));
    while i < txn.captures.entries.len()
        invariant
            images.wf(),
            txn.wf(),
            entries == txn.captures.entries@,
            i <= entries.len(),
            images@ == stashed_entries(before, txn.tid, entries.take(i as int)),
        decreases entries.len() - i,
    {
        let entry = &txn.captures.entries[i];
        images.insert(entry.blocknr, Dated { tid: txn.tid, value: Box::new(*entry.value) });
        assert(entries.take(i + 1).drop_last() =~= entries.take(i as int));
        i += 1;
    }
    proof {
        assert(entries.take(i as int) =~= entries);
        lemma_stashed(before, *txn);
    }
}

/// The images of a map with those of a sequence of entries put over them one
/// by one.
spec fn stashed_entries(
    images: Map<u64, Dated<Box<[u8; BLOCK_SIZE]>>>,
    tid: Tid,
    entries: Seq<Entry<Box<[u8; BLOCK_SIZE]>>>,
) -> Map<u64, Dated<Box<[u8; BLOCK_SIZE]>>>
    decreases entries.len(),
{
    if entries.len() == 0 {
        images
    } else {
        stashed_entries(images, tid, entries.drop_last()).insert(
            entries.last().blocknr,
            Dated { tid, value: entries.last().value },
        )
    }
}

proof fn lemma_stashed_entry(
    images: Map<u64, Dated<Box<[u8; BLOCK_SIZE]>>>,
    tid: Tid,
    entries: Seq<Entry<Box<[u8; BLOCK_SIZE]>>>,
    key: u64,
)
    requires
        increasing(entries),
    ensures
        stashed_entries(images, tid, entries).dom().contains(key) <==> images.dom().contains(key)
            || occurs(entries, key),
        !occurs(entries, key) && images.dom().contains(key) ==> stashed_entries(
            images,
            tid,
            entries,
        )[key] == images[key],
        forall|i: int|
            #![trigger place_of(entries, key, i)]
            place_of(entries, key, i) ==> stashed_entries(images, tid, entries)[key] == (Dated {
                tid,
                value: entries[i].value,
            }),
    decreases entries.len(),
{
    if entries.len() > 0 {
        let front = entries.drop_last();
        assert forall|i: int, j: int| 0 <= i < j < front.len() implies (
        #[trigger] front[i]).blocknr < (#[trigger] front[j]).blocknr by {
            assert(entries[i].blocknr < entries[j].blocknr);
        }
        lemma_stashed_entry(images, tid, front, key);
        let last = entries.len() - 1;
        if entries[last].blocknr == key {
            assert(place_of(entries, key, last));
        }
        assert forall|i: int| place_of(front, key, i) <==> (place_of(entries, key, i) && i
            < last) by {}
        if occurs(front, key) {
            let i = choose|i: int| place_of(front, key, i);
            assert(place_of(entries, key, i));
            assert(entries[i].blocknr < entries[last].blocknr);
        }
        if occurs(entries, key) && entries[last].blocknr != key {
            let i = choose|i: int| place_of(entries, key, i);
            assert(place_of(front, key, i));
        }
        assert forall|i: int| #![trigger place_of(entries, key, i)] place_of(
            entries,
            key,
            i,
        ) implies stashed_entries(images, tid, entries)[key] == (Dated {
            tid,
            value: entries[i].value,
        }) by {
            if i < last {
                assert(place_of(front, key, i));
                assert(entries[i].blocknr < entries[last].blocknr);
            }
        }
    }
}

proof fn lemma_stashed(images: Map<u64, Dated<Box<[u8; BLOCK_SIZE]>>>, txn: Transaction)
    requires
        txn.wf(),
    ensures
        stashed_entries(images, txn.tid, txn.captures.entries@) == stashed(images, txn),
{
    let entries = txn.captures.entries@;
    let a = stashed_entries(images, txn.tid, entries);
    let b = stashed(images, txn);
    assert forall|key: u64| #[trigger] a.dom().contains(key) == b.dom().contains(key) by {
        lemma_stashed_entry(images, txn.tid, entries, key);
    }
    assert forall|key: u64| a.dom().contains(key) implies #[trigger] a[key] == b[key] by {
        lemma_stashed_entry(images, txn.tid, entries, key);
        if occurs(entries, key) {
            let i = choose|i: int| place_of(entries, key, i);
            lemma_entry_in_map(entries, i);
        }
    }
    assert(a =~= b);
}

impl JournalState {
    /// The transactions and maps are well-formed, and no transaction is
    /// running beside one that is being locked.
    pub open spec fn wf(self) -> bool {
        &&& self.running matches Some(txn) ==> txn.wf()
        &&& self.locking matches Some(txn) ==> txn.wf()
        &&& self.committing matches Some(slot) ==> slot.txn.wf()
        &&& self.running is None || self.locking is None
        &&& self.uncheckpointed.wf()
        &&& self.revoked.wf()
    }

    /// Head and tail are in the ring.
    pub open spec fn placed(self, sb: JournalSuperblock) -> bool {
        &&& in_ring(sb, self.head as int)
        &&& self.tail_block matches Some(tail) ==> in_ring(sb, tail as int)
    }

    /// The transactions are those of `other`.
    pub open spec fn same_txns(self, other: Self) -> bool {
        &&& self.running == other.running
        &&& self.locking == other.locking
        &&& self.committing == other.committing
    }

    /// The ids and the positions in the log are those of `other`.
    pub open spec fn same_log(self, other: Self) -> bool {
        &&& self.next_tid == other.next_tid
        &&& self.head == other.head
        &&& self.tail_block == other.tail_block
        &&& self.tail_tid == other.tail_tid
        &&& self.committed_tid == other.committed_tid
    }

    /// What is remembered of committed transactions is what `other` remembers.
    pub open spec fn same_memory(self, other: Self) -> bool {
        &&& self.uncheckpointed == other.uncheckpointed
        &&& self.revoked == other.revoked
        &&& self.pinned_frees == other.pinned_frees
    }

    /// The flags are those of `other`.
    pub open spec fn same_flags(self, other: Self) -> bool {
        &&& self.credit_release_epoch == other.credit_release_epoch
        &&& self.stop == other.stop
        &&& self.aborted == other.aborted
    }

    /// The transaction that operations add to, or that waits for those under
    /// way.
    pub open spec fn open_txn(self) -> Option<Transaction> {
        if self.running is Some {
            self.running
        } else {
            self.locking
        }
    }

    /// The content of a block that is newer than the one at home, if there is
    /// one.
    pub open spec fn newest(self, blocknr: u64) -> Option<Seq<u8>> {
        if captured_in(self.open_txn(), blocknr) is Some {
            captured_in(self.open_txn(), blocknr)
        } else if self.uncheckpointed@.dom().contains(blocknr) {
            Some((*self.uncheckpointed@[blocknr].value)@)
        } else {
            None
        }
    }

    /// The blocks that transactions which are not committed have revoked.
    pub open spec fn unpublished(self) -> Set<u64> {
        revoked_in(self.running).union(revoked_in(self.locking)).union(
            match self.committing {
                Some(slot) => slot.txn.revokes@.dom(),
                None => Set::empty(),
            },
        )
    }

    /// Whether there is a transaction to be committed.
    pub open spec fn committable(self) -> bool {
        self.committing is None && (self.open_txn() matches Some(txn) && txn.ready())
    }

    /// The state of a journal that was just loaded: nothing is running, and
    /// the first commit takes the id that recovery expects.
    pub fn new(geo: &JournalGeometry) -> (state: Self)
        requires
            geo.wf(),
        ensures
            state.running is None,
            state.locking is None,
            state.committing is None,
            state.next_tid == geo.superblock.sequence,
            state.head == geo.superblock.first,
            state.tail_block == (if geo.superblock.start == 0 {
                None::<u32>
            } else {
                Some(geo.superblock.start)
            }),
            state.tail_tid == geo.superblock.sequence,
            state.committed_tid == tid_prev(geo.superblock.sequence),
            state.uncheckpointed@ == Map::<u64, Dated<Box<[u8; BLOCK_SIZE]>>>::empty(),
            state.revoked@ == Map::<u64, Dated<()>>::empty(),
            state.pinned_frees@.len() == 0,
            state.credit_release_epoch == 0,
            !state.stop,
            !state.aborted,
            state.wf(),
            geo.superblock.start == 0 || in_ring(geo.superblock, geo.superblock.start as int)
                ==> state.placed(geo.superblock),
    {
        let start: u32 = geo.start();
        JournalState {
            running: None,
            locking: None,
            committing: None,
            next_tid: geo.sequence(),
            head: geo.first(),
            tail_block: if start == 0 {
                None
            } else {
                Some(start)
            },
            tail_tid: geo.sequence(),
            committed_tid: geo.sequence().prev(),
            uncheckpointed: BlockMap::new(),
            revoked: RevokeTable::new(),
            pinned_frees: Vec::new(),
            credit_release_epoch: 0,
            stop: false,
            aborted: false,
        }
    }

    /// Whether there is a transaction to be committed.
    fn is_committable(&self) -> (r: bool)
        ensures
            r == self.committable(),
    {
        if self.committing.is_some() {
            return false;
        }
        match &self.running {
            Some(txn) => txn.is_ready(),
            None => match &self.locking {
                Some(txn) => txn.is_ready(),
                None => false,
            },
        }
    }

    /// Decides what the commit thread does next, if anything. It leaves once
    /// it is asked to, commits nothing for an aborted journal, and otherwise
    /// commits what is ready.
    pub fn poll_commit_action(&self) -> (r: Option<CommitAction>)
        ensures
            r == (if self.stop {
                Some(CommitAction::Exit)
            } else if self.aborted {
                None
            } else if self.committable() {
                Some(CommitAction::Commit)
            } else {
                None
            }),
    {
        if self.stop {
            Some(CommitAction::Exit)
        } else if self.aborted {
            None
        } else if self.is_committable() {
            Some(CommitAction::Commit)
        } else {
            None
        }
    }

    /// The transaction that was open has moved into the committing slot, and
    /// its images are kept.
    pub open spec fn staged_from(self, before: Self) -> bool {
        &&& before.open_txn() is Some
        &&& self.running is None
        &&& self.locking is None
        &&& self.committing == Some(
            Committing { txn: before.open_txn()->0, phase: CommitPhase::Locked },
        )
        &&& self.uncheckpointed@ == stashed(before.uncheckpointed@, before.open_txn()->0)
        &&& self.revoked == before.revoked
        &&& self.pinned_frees == before.pinned_frees
        &&& self.same_log(before)
        &&& self.same_flags(before)
    }

    /// Moves the transaction that is ready into the committing slot, and gives
    /// its id. Its images are kept in the same moment, so that the newest
    /// content of every block stays known.
    pub fn stage_commit(&mut self) -> (r: Option<Tid>)
        requires
            old(self).wf(),
        ensures
            final(self).wf(),
            r is Some <==> old(self).committable(),
            r is None ==> *final(self) == *old(self),
            r matches Some(tid) ==> final(self).staged_from(*old(self)) && tid
                == old(self).open_txn()->0.tid,
            forall|b: u64| #[trigger] final(self).newest(b) == old(self).newest(b),
    {
        if !self.is_committable() {
            return None;
        }
        self.stage_open()
    }

    /// Moves the open transaction, if there is one, into the committing slot,
    /// which is empty.
    fn stage_open(&mut self) -> (r: Option<Tid>)
        requires
            old(self).wf(),
            old(self).committing is None,
        ensures
            final(self).wf(),
            r is Some <==> old(self).open_txn() is Some,
            r is None ==> *final(self) == *old(self),
            r matches Some(tid) ==> final(self).staged_from(*old(self)) && tid
                == old(self).open_txn()->0.tid,
            forall|b: u64| #[trigger] final(self).newest(b) == old(self).newest(b),
    {
        let open = match self.running.take() {
            Some(txn) => Some(txn),
            None => self.locking.take(),
        };
        match open {
            None => None,
            Some(txn) => {
                stash_uncheckpointed(&mut self.uncheckpointed, &txn);
                let tid = txn.tid();
                self.committing = Some(Committing { txn, phase: CommitPhase::Locked });
                Some(tid)
            },
        }
    }

    /// Takes the open transaction for the last commit before an unmount, even
    /// if operations on it were not ended, and gives its id. One that has
    /// captured nothing is dropped.
    pub fn stage_unmount(&mut self) -> (r: Option<Tid>)
        requires
            old(self).wf(),
            old(self).committing is None,
        ensures
            final(self).wf(),
            match old(self).open_txn() {
                None => r is None && *final(self) == *old(self),
                Some(txn) => if txn.captures.entries@.len() > 0 {
                    r == Some(txn.tid) && final(self).staged_from(*old(self))
                } else {
                    &&& r is None
                    &&& final(self).running is None
                    &&& final(self).locking is None
                    &&& final(self).committing is None
                    &&& final(self).uncheckpointed@ == old(self).uncheckpointed@
                    &&& final(self).revoked == old(self).revoked
                    &&& final(self).pinned_frees == old(self).pinned_frees
                    &&& final(self).same_log(*old(self))
                    &&& final(self).same_flags(*old(self))
                },
            },
            forall|b: u64| #[trigger] final(self).newest(b) == old(self).newest(b),
    {
        let staged = self.stage_open();
        let empty = match &self.committing {
            Some(slot) => slot.txn.nr_metadata_blocks() == 0,
            None => true,
        };
        if empty {
            if let Some(slot) = &self.committing {
                assert(slot.txn.captures@ =~= Map::<u64, Box<[u8; BLOCK_SIZE]>>::empty());
                assert(self.uncheckpointed@ =~= old(self).uncheckpointed@);
            }
            self.committing = None;
            return None;
        }
        staged
    }

    /// Enters the next phase of the commit of the transaction `tid`.
    pub fn advance_committing_phase(&mut self, tid: Tid, phase: CommitPhase) -> (r: Result<
        (),
        Error,
    >)
        requires
            old(self).wf(),
        ensures
            final(self).wf(),
            r is Ok <==> (old(self).committing matches Some(slot) && slot.txn.tid == tid
                && phase_follows(slot.phase, phase)),
            r matches Err(e) ==> e == Error::PhaseOrder && *final(self) == *old(self),
            r is Ok ==> {
                &&& final(self).committing == Some(
                    Committing { txn: old(self).committing->0.txn, phase },
                )
                &&& final(self).running == old(self).running
                &&& final(self).locking == old(self).locking
                &&& final(self).same_log(*old(self))
                &&& final(self).same_memory(*old(self))
                &&& final(self).same_flags(*old(self))
            },
    {
        match &mut self.committing {
            Some(slot) => {
                if slot.txn.tid() == tid && slot.phase.precedes(phase) {
                    slot.phase = phase;
                    Ok(())
                } else {
                    Err(Error::PhaseOrder)
                }
            },
            None => Err(Error::PhaseOrder),
        }
    }

    /// Decides on the commit of the transaction in the committing slot.
    pub fn attempt_commit(&self, geo: &JournalGeometry) -> (r: Result<CommitAttempt, Error>)
        requires
            geo.wf(),
            self.wf(),
            self.placed(geo.superblock),
        ensures
            match self.committing {
                None => r == Err::<CommitAttempt, Error>(Error::PhaseOrder),
                Some(slot) => {
                    &&& r is Err <==> commit_fault(geo.superblock, slot.txn) is Some
                    &&& r matches Err(e) ==> commit_fault(geo.superblock, slot.txn) == Some(e)
                    &&& r matches Ok(CommitAttempt::NeedsLogSpace) ==> txn_footprint(
                        geo.superblock,
                        slot.txn,
                    ) > ring_free(geo.superblock, self.head as int, self.tail_block)
                    &&& r matches Ok(CommitAttempt::Ready(plan)) ==> plan.commits(
                        geo.superblock,
                        slot.txn,
                        self.head,
                        self.tail_block,
                    ) && txn_footprint(geo.superblock, slot.txn) <= ring_free(
                        geo.superblock,
                        self.head as int,
                        self.tail_block,
                    )
                },
            },
    {
        match &self.committing {
            None => Err(Error::PhaseOrder),
            Some(slot) => try_commit_transaction(geo, &slot.txn, self.head, self.tail_block),
        }
    }

    /// Makes a commit known, once it is on the disk: the head moves behind it,
    /// the tail to it where the log was clean; its revokes are published and
    /// its pins released in the same moment.
    pub fn publish_commit(&mut self, geo: &JournalGeometry, plan: &CommitPlan) -> (r: Result<
        (),
        Error,
    >)
        requires
            geo.wf(),
            old(self).wf(),
            old(self).placed(geo.superblock),
            in_ring(geo.superblock, plan.start as int),
        ensures
            final(self).wf(),
            final(self).placed(geo.superblock),
            r is Ok <==> (old(self).committing matches Some(slot) && slot.txn.tid == plan.tid
                && slot.phase == CommitPhase::CommitRecord),
            r matches Err(e) ==> e == Error::PhaseOrder && *final(self) == *old(self),
            r is Ok ==> {
                let txn = old(self).committing->0.txn;
                &&& final(self).committing == Some(
                    Committing { txn, phase: CommitPhase::Finished },
                )
                &&& final(self).head == ring_advance(
                    geo.superblock,
                    plan.start as int,
                    plan.footprint as nat,
                )
                &&& final(self).tail_block == (if plan.was_clean {
                    Some(plan.start)
                } else {
                    old(self).tail_block
                })
                &&& final(self).tail_tid == (if plan.was_clean {
                    plan.tid
                } else {
                    old(self).tail_tid
                })
                &&& final(self).committed_tid == plan.tid
                &&& final(self).revoked@ == recorded_all(
                    old(self).revoked@,
                    txn.revoked(),
                    plan.tid,
                )
                &&& final(self).pinned_frees@ == pins_without(old(self).pinned_frees@, plan.tid)
                &&& final(self).uncheckpointed == old(self).uncheckpointed
                &&& final(self).running == old(self).running
                &&& final(self).locking == old(self).locking
                &&& final(self).next_tid == old(self).next_tid
                &&& final(self).same_flags(*old(self))
            },
    {
        match self.advance_committing_phase(plan.tid, CommitPhase::Finished) {
            Ok(()) => {},
            Err(e) => {
                return Err(e);
            },
        }
        proof {
            ring_advance_is_modular(
                geo.superblock,
                plan.start as int,
                plan.footprint as nat,
            );
        }
        self.head = geo.advance(plan.start, plan.footprint);
        if plan.was_clean {
            self.tail_block = Some(plan.start);
            self.tail_tid = plan.tid;
        }
        let revokes = match &self.committing {
            Some(slot) => slot.txn.revokes.keys(),
            None => Vec::new(),
        };
        self.revoked.record_all(&revokes, plan.tid);
        self.release_pinned_frees(plan.tid);
        self.committed_tid = plan.tid;
        Ok(())
    }

    /// Releases what the transaction `tid` has pinned.
    fn release_pinned_frees(&mut self, tid: Tid)
        ensures
            final(self).pinned_frees@ == pins_without(old(self).pinned_frees@, tid),
            final(self).same_txns(*old(self)),
            final(self).same_log(*old(self)),
            final(self).same_flags(*old(self)),
            final(self).uncheckpointed == old(self).uncheckpointed,
            final(self).revoked == old(self).revoked,
    {
        let ghost keep = |pin: PinnedFree| pin.tid != tid;
        let mut kept: Vec<PinnedFree> = Vec::new();
        let mut i: usize = 0;
        proof {
            reveal(Seq::filter);
            assert(self.pinned_frees@.take(0).filter(keep) =~= Seq::empty());
        }
        while i < self.pinned_frees.len()
            invariant
                i <= self.pinned_frees@.len(),
                keep == (|pin: PinnedFree| pin.tid != tid),
                kept@ == self.pinned_frees@.take(i as int).filter(keep),
            decreases self.pinned_frees.len() - i,
        {
            let pin = self.pinned_frees[i];
            proof {
                reveal(Seq::filter);
                assert(self.pinned_frees@.take(i + 1).drop_last() =~= self.pinned_frees@.take(
                    i as int,
                ));
            }
            if pin.tid != tid {
                kept.push(pin);
            }
            i += 1;
        }
        assert(self.pinned_frees@.take(i as int) =~= self.pinned_frees@);
        self.pinned_frees = kept;
    }

    /// Ends a commit. One that has failed aborts the journal: its changes are
    /// in memory but neither in the log nor at home.
    pub fn finish_commit(&mut self, failed: bool)
        requires
            old(self).wf(),
        ensures
            final(self).wf(),
            final(self).committing is None,
            final(self).aborted == (old(self).aborted || failed),
            final(self).running == old(self).running,
            final(self).locking == old(self).locking,
            final(self).same_log(*old(self)),
            final(self).same_memory(*old(self)),
            final(self).credit_release_epoch == old(self).credit_release_epoch,
            final(self).stop == old(self).stop,
    {
        if failed {
            self.abort();
        }
        self.committing = None;
    }

    /// Aborts the journal: it takes no more work.
    pub fn abort(&mut self)
        requires
            old(self).wf(),
        ensures
            final(self).wf(),
            final(self).aborted,
            final(self).same_txns(*old(self)),
            final(self).same_log(*old(self)),
            final(self).same_memory(*old(self)),
            final(self).credit_release_epoch == old(self).credit_release_epoch,
            final(self).stop == old(self).stop,
    {
        self.aborted = true;
    }

    /// Asks the commit thread to leave.
    pub fn request_stop(&mut self)
        requires
            old(self).wf(),
        ensures
            final(self).wf(),
            final(self).stop,
            final(self).same_txns(*old(self)),
            final(self).same_log(*old(self)),
            final(self).same_memory(*old(self)),
            final(self).credit_release_epoch == old(self).credit_release_epoch,
            final(self).aborted == old(self).aborted,
    {
        self.stop = true;
    }

    /// Whether the journal is aborted.
    pub fn is_aborted(&self) -> (r: bool)
        ensures
            r == self.aborted,
    {
        self.aborted
    }

    /// Whether the commit thread was asked to leave.
    pub fn is_stopped(&self) -> (r: bool)
        ensures
            r == self.stop,
    {
        self.stop
    }

    /// Notes that room was given back to the running transaction.
    pub fn note_credits_released(&mut self)
        requires
            old(self).wf(),
        ensures
            final(self).wf(),
            final(self).credit_release_epoch == (old(self).credit_release_epoch + 1)
                % 0x1_0000_0000_0000_0000,
            final(self).same_txns(*old(self)),
            final(self).same_log(*old(self)),
            final(self).same_memory(*old(self)),
            final(self).stop == old(self).stop,
            final(self).aborted == old(self).aborted,
    {
        self.credit_release_epoch = self.credit_release_epoch.wrapping_add(1);
    }

    /// Whether one who found the transaction `tid` full at the epoch `epoch`
    /// need wait no longer: the transaction is committed, or room was given
    /// back. An aborted journal ends the wait with an error.
    pub fn poll_transaction_room(&self, tid: Tid, epoch: u64) -> (r: Option<Result<(), Error>>)
        ensures
            r == (if self.aborted {
                Some(Err::<(), Error>(Error::AbortedWaitingForRoom))
            } else if tid_geq(self.committed_tid, tid) || self.credit_release_epoch != epoch {
                Some(Ok(()))
            } else {
                None
            }),
    {
        if self.aborted {
            Some(Err(Error::AbortedWaitingForRoom))
        } else if self.committed_tid.geq(tid) || self.credit_release_epoch != epoch {
            Some(Ok(()))
        } else {
            None
        }
    }

    /// Whether one who waits for the commit of the transaction `target` need
    /// wait no longer. What is committed stays committed; but an aborted
    /// journal commits nothing more.
    pub fn poll_log_commit(&self, target: Tid) -> (r: Option<Result<(), Error>>)
        ensures
            r == (if tid_geq(self.committed_tid, target) {
                Some(Ok::<(), Error>(()))
            } else if self.aborted {
                Some(Err(Error::NeverCommits))
            } else {
                None
            }),
    {
        if self.committed_tid.geq(target) {
            Some(Ok(()))
        } else if self.aborted {
            Some(Err(Error::NeverCommits))
        } else {
            None
        }
    }

    /// The transaction that has to be committed before everything that was
    /// captured so far is durable, if there is one. An aborted journal may
    /// have lost something, and so claims nothing.
    pub fn sync_target(&self) -> (r: Result<Option<Tid>, Error>)
        ensures
            r == (match self.open_txn() {
                Some(txn) if txn.captures.entries@.len() > 0 => Ok(Some(txn.tid)),
                _ => match self.committing {
                    Some(slot) => Ok(Some(slot.txn.tid)),
                    None => if self.aborted {
                        Err(Error::Aborted)
                    } else {
                        Ok::<Option<Tid>, Error>(None)
                    },
                },
            }),
    {
        let open = match &self.running {
            Some(txn) => Some(txn),
            None => match &self.locking {
                Some(txn) => Some(txn),
                None => None,
            },
        };
        if let Some(txn) = open {
            if txn.nr_metadata_blocks() > 0 {
                return Ok(Some(txn.tid()));
            }
        }
        match &self.committing {
            Some(slot) => Ok(Some(slot.txn.tid())),
            None => if self.aborted {
                Err(Error::Aborted)
            } else {
                Ok(None)
            },
        }
    }

    /// Whether the log may be checkpointed when everything is committed.
    pub fn check_checkpoint(&self) -> (r: Result<(), Error>)
        ensures
            r == (if self.aborted {
                Err::<(), Error>(Error::AbortedNoCheckpoint)
            } else {
                Ok(())
            }),
    {
        if self.aborted {
            Err(Error::AbortedNoCheckpoint)
        } else {
            Ok(())
        }
    }

    /// What a checkpoint pass starts from.
    pub fn checkpoint_input(&self) -> (input: PassInput)
        requires
            self.wf(),
        ensures
            input.tail_block == self.tail_block,
            input.tail_tid == self.tail_tid,
            input.committed_tid == self.committed_tid,
            input.head == self.head,
            input.revoked.wf(),
            input.revoked@ == self.revoked@,
            input.unpublished.wf(),
            input.unpublished@.dom() == self.unpublished(),
            forall|sb: JournalSuperblock|
                self.placed(sb) ==> #[trigger] input.wf(sb),
    {
        let mut unpublished: BlockMap<()> = BlockMap::new();
        if let Some(txn) = &self.running {
            txn.collect_unpublished_revokes(&mut unpublished);
        }
        if let Some(txn) = &self.locking {
            txn.collect_unpublished_revokes(&mut unpublished);
        }
        if let Some(slot) = &self.committing {
            slot.txn.collect_unpublished_revokes(&mut unpublished);
        }
        assert(unpublished@.dom() =~= self.unpublished());
        PassInput {
            tail_block: self.tail_block,
            tail_tid: self.tail_tid,
            committed_tid: self.committed_tid,
            head: self.head,
            revoked: self.revoked.snapshot(),
            unpublished,
        }
    }

    /// Makes a checkpoint pass known, once it is on the disk: the tail moves,
    /// and what is remembered of the transactions that came home is dropped.
    pub fn finish_checkpoint(&mut self, retirement: &Retirement)
        requires
            old(self).wf(),
        ensures
            final(self).wf(),
            final(self).tail_block == retirement.tail(),
            final(self).tail_tid == retirement.tid,
            final(self).uncheckpointed@ == retired(
                old(self).uncheckpointed@,
                retirement.through(),
            ),
            final(self).revoked@ == retired(old(self).revoked@, retirement.through()),
            final(self).pinned_frees == old(self).pinned_frees,
            final(self).same_txns(*old(self)),
            final(self).same_flags(*old(self)),
            final(self).next_tid == old(self).next_tid,
            final(self).head == old(self).head,
            final(self).committed_tid == old(self).committed_tid,
    {
        self.tail_block = if retirement.stopped_early {
            Some(retirement.log)
        } else {
            None
        };
        self.tail_tid = retirement.tid;
        let through = retirement.tid.prev();
        self.uncheckpointed.retire_through(through);
        self.revoked.retire_through(through);
    }
}

/// How a commit goes on after an attempt.
pub enum DrainStep {
    /// Carry this out.
    Run(CommitPlan),
    /// Checkpoint the log and try again.
    Drain,
    /// Give up: the transaction is lost.
    Failed(Error),
}

/// Decides how a commit goes on: where the log has no room it is checkpointed
/// once, and if that did not help, the commit fails.
pub fn commit_or_drain_tail(drained: bool, attempt: Result<CommitAttempt, Error>) -> (step:
    DrainStep)
    ensures
        step == (match attempt {
            Err(e) => DrainStep::Failed(e),
            Ok(CommitAttempt::Ready(plan)) => DrainStep::Run(plan),
            Ok(CommitAttempt::NeedsLogSpace) => if drained {
                DrainStep::Failed(Error::NoRoomAfterDrain)
            } else {
                DrainStep::Drain
            },
        }),
{
    match attempt {
        Err(e) => DrainStep::Failed(e),
        Ok(CommitAttempt::Ready(plan)) => DrainStep::Run(plan),
        Ok(CommitAttempt::NeedsLogSpace) => if drained {
            DrainStep::Failed(Error::NoRoomAfterDrain)
        } else {
            DrainStep::Drain
        },
    }
}

} // verus!
