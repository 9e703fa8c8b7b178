//! Committing a transaction: what has to be done, and in which order, so that
//! a crash at any point leaves either all of it or nothing.

use vstd::prelude::*;

use crate::bytes::BLOCK_SIZE;
use crate::error::Error;
use crate::journal::apply::LogView;
use crate::journal::chain::{
    boxed_views, build_descriptor_chain, chain_log, commit_block, footprint, line_up,
    transaction_log, transaction_log_has_footprint, CommitTime,
};
use crate::journal::descriptor::{images, run_fits_tags};
use crate::journal::format::JournalCsumSeed;
use crate::journal::geometry::{
    fitting_commit_spares_the_tail, in_ring, ring_advance, ring_free, ring_positions_are_distinct,
    ring_size, ring_used, JournalGeometry,
};
use crate::journal::replay::holds;
use crate::journal::revoke::{build_revoke_blocks, revoke_blocks, revokes_fit};
use crate::journal::superblock::JournalSuperblock;
use crate::journal::tid::Tid;
use crate::journal::transaction::{OrderedData, Transaction};

verus! {

/// How far a commit has come.
#[derive(Clone, Copy, Debug, PartialEq, Eq, Structural)]
pub enum CommitPhase {
    /// The transaction takes no more changes. Nothing is written.
    Locked,
    /// File data goes to the disk.
    Flush,
    /// The log blocks go to the disk.
    Commit,
    /// The commit block goes to the disk.
    CommitRecord,
    /// The transaction is committed.
    Finished,
}

/// Whether `to` is the phase after `from`.
pub open spec fn phase_follows(from: CommitPhase, to: CommitPhase) -> bool {
    match from {
        CommitPhase::Locked => to == CommitPhase::Flush,
        CommitPhase::Flush => to == CommitPhase::Commit,
        CommitPhase::Commit => to == CommitPhase::CommitRecord,
        CommitPhase::CommitRecord => to == CommitPhase::Finished,
        CommitPhase::Finished => false,
    }
}

impl CommitPhase {
    /// Whether `to` is the phase after this one.
    pub fn precedes(self, to: CommitPhase) -> (r: bool)
        ensures
            r == phase_follows(self, to),
    {
        match self {
            CommitPhase::Locked => matches!(to, CommitPhase::Flush),
            CommitPhase::Flush => matches!(to, CommitPhase::Commit),
            CommitPhase::Commit => matches!(to, CommitPhase::CommitRecord),
            CommitPhase::CommitRecord => matches!(to, CommitPhase::Finished),
            CommitPhase::Finished => false,
        }
    }
}

/// One thing that a commit does.
pub enum CommitOp {
    /// Enter a phase.
    EnterPhase(CommitPhase),
    /// Write file data to its place.
    FlushData(OrderedData),
    /// Wait until everything written so far is on the disk.
    Barrier,
    /// Write a log block.
    WriteLog { log: u32, bytes: Box<[u8; BLOCK_SIZE]> },
    /// Write the commit block, with the time of that moment.
    WriteCommitBlock { log: u32 },
    /// Point the journal superblock at this transaction.
    MoveTail { start: u32 },
    /// Make the commit known to the journal's state.
    Publish,
}

/// What a [`CommitOp`] does.
#[verifier::ext_equal]
pub enum OpView {
    EnterPhase(CommitPhase),
    FlushData(OrderedData),
    Barrier,
    WriteLog { log: int, bytes: Seq<u8> },
    WriteCommitBlock { log: int },
    MoveTail { start: int },
    Publish,
}

impl View for CommitOp {
    type V = OpView;

    open spec fn view(&self) -> OpView {
        match *self {
            CommitOp::EnterPhase(phase) => OpView::EnterPhase(phase),
            CommitOp::FlushData(data) => OpView::FlushData(data),
            CommitOp::Barrier => OpView::Barrier,
            CommitOp::WriteLog { log, bytes } => OpView::WriteLog {
                log: log as int,
                bytes: (*bytes)@,
            },
            CommitOp::WriteCommitBlock { log } => OpView::WriteCommitBlock { log: log as int },
            CommitOp::MoveTail { start } => OpView::MoveTail { start: start as int },
            CommitOp::Publish => OpView::Publish,
        }
    }
}

/// What the ops do.
pub open spec fn op_views(ops: Seq<CommitOp>) -> Seq<OpView> {
    Seq::new(ops.len(), |i: int| ops[i]@)
}

/// File data first, and a barrier if there was any: data is on the disk before
/// the metadata that refers to it.
pub open spec fn flush_ops(ordered: Seq<OrderedData>) -> Seq<OpView> {
    Seq::new(ordered.len(), |i: int| OpView::FlushData(ordered[i])) + if ordered.len() > 0 {
        seq![OpView::Barrier]
    } else {
        Seq::empty()
    }
}

/// The log blocks, one after another from `head` on.
pub open spec fn log_ops(sb: JournalSuperblock, head: int, log: Seq<Seq<u8>>) -> Seq<OpView> {
    Seq::new(
        log.len(),
        |i: int| OpView::WriteLog { log: ring_advance(sb, head, i as nat), bytes: log[i] },
    )
}

/// The commit block between two barriers: the log blocks are on the disk
/// before it, and it is before anything else.
pub open spec fn record_ops(at: int) -> Seq<OpView> {
    seq![
        OpView::Barrier,
        OpView::EnterPhase(CommitPhase::CommitRecord),
        OpView::WriteCommitBlock { log: at },
        OpView::Barrier,
    ]
}

/// The journal superblock is moved only where the log was clean: otherwise it
/// points at an older transaction that has to stay.
pub open spec fn publish_ops(was_clean: bool, head: int) -> Seq<OpView> {
    if was_clean {
        seq![OpView::MoveTail { start: head }, OpView::Barrier, OpView::Publish]
    } else {
        seq![OpView::Publish]
    }
}

/// Everything that a commit does, in its order.
pub open spec fn commit_ops(
    sb: JournalSuperblock,
    ordered: Seq<OrderedData>,
    log: Seq<Seq<u8>>,
    head: int,
    was_clean: bool,
) -> Seq<OpView> {
    seq![OpView::EnterPhase(CommitPhase::Flush)] + flush_ops(ordered) + seq![
        OpView::EnterPhase(CommitPhase::Commit),
    ] + log_ops(sb, head, log) + record_ops(ring_advance(sb, head, log.len())) + publish_ops(
        was_clean,
        head,
    )
}

/// The log blocks of a transaction that precede its commit block.
pub open spec fn body_log(sb: JournalSuperblock, txn: Transaction) -> Seq<Seq<u8>> {
    revoke_blocks(sb.tag_layout, sb.csum_seed, txn.tid, txn.revoked()) + chain_log(
        sb.tag_layout,
        sb.csum_seed,
        txn.tid,
        txn.images(),
    )
}

/// How many log blocks a transaction takes.
pub open spec fn txn_footprint(sb: JournalSuperblock, txn: Transaction) -> nat {
    footprint(sb.tag_layout, txn.images().len(), txn.revoked().len())
}

/// The first reason why a transaction can never be committed.
pub open spec fn commit_fault(sb: JournalSuperblock, txn: Transaction) -> Option<Error> {
    if !revokes_fit(sb.tag_layout, txn.revoked()) {
        Some(Error::RevokeTooWide)
    } else if txn.images().len() == 0 {
        Some(Error::EmptyTransaction)
    } else if !run_fits_tags(sb.tag_layout, txn.images()) {
        Some(Error::BlockTooWide)
    } else if txn_footprint(sb, txn) > u32::MAX {
        Some(Error::TransactionTooLarge)
    } else {
        None
    }
}

/// A commit that is ready to be carried out.
pub struct CommitPlan {
    /// The transaction.
    pub tid: Tid,
    /// The log block where it starts.
    pub start: u32,
    /// How many log blocks it takes.
    pub footprint: u32,
    /// Whether the log was clean before it.
    pub was_clean: bool,
    /// What to do, in this order.
    pub ops: Vec<CommitOp>,
}

impl CommitPlan {
    /// The plan commits `txn` to a log whose head is `head` and whose tail is
    /// `dirty_tail`.
    pub open spec fn commits(
        self,
        sb: JournalSuperblock,
        txn: Transaction,
        head: u32,
        dirty_tail: Option<u32>,
    ) -> bool {
        &&& self.tid == txn.tid
        &&& self.start == head
        &&& self.footprint == txn_footprint(sb, txn)
        &&& self.was_clean == (dirty_tail is None)
        &&& op_views(self.ops@) == commit_ops(
            sb,
            txn.ordered@,
            body_log(sb, txn),
            head as int,
            self.was_clean,
        )
    }
}

/// What comes of the attempt to commit a transaction.
pub enum CommitAttempt {
    /// It fits, and this is to be done.
    Ready(CommitPlan),
    /// It does not fit the free part of the log. Nothing was done.
    NeedsLogSpace,
}

/// Decides on the commit of `txn`: it must fit the free part of the log, so
/// that no block of a transaction that still has to be checkpointed is
/// overwritten.
pub fn try_commit_transaction(
    geo: &JournalGeometry,
    txn: &Transaction,
    head: u32,
    dirty_tail: Option<u32>,
) -> (r: Result<CommitAttempt, Error>)
    requires
        geo.wf(),
        in_ring(geo.superblock, head as int),
        dirty_tail matches Some(tail) ==> in_ring(geo.superblock, tail as int),
    ensures
        r matches Err(e) ==> commit_fault(geo.superblock, *txn) == Some(e),
        r is Err <==> commit_fault(geo.superblock, *txn) is Some,
        r matches Ok(CommitAttempt::NeedsLogSpace) ==> txn_footprint(geo.superblock, *txn)
            > ring_free(geo.superblock, head as int, dirty_tail),
        r matches Ok(CommitAttempt::Ready(plan)) ==> {
            &&& txn_footprint(geo.superblock, *txn) <= ring_free(
                geo.superblock,
                head as int,
                dirty_tail,
            )
            &&& plan.commits(geo.superblock, *txn, head, dirty_tail)
        },
{
    let layout = geo.tag_layout();
    let seed = geo.csum_seed();
    let ghost sb = geo.superblock;
    let ghost body = body_log(sb, *txn);
    let revoked = txn.revokes.keys();
    let revokes = match build_revoke_blocks(txn.tid(), &revoked, &layout, seed) {
        Ok(revokes) => revokes,
        Err(e) => {
            return Err(e);
        },
    };
    let chain = match build_descriptor_chain(txn.tid(), &txn.captures.entries, layout, seed) {
        Ok(chain) => chain,
        Err(e) => {
            return Err(e);
        },
    };
    let mut blocks = line_up(&revokes, &chain);
    proof {
        assert(boxed_views(blocks@) == body);
        transaction_log_has_footprint(
            layout,
            seed,
            txn.tid,
            txn.images(),
            txn.revoked(),
            CommitTime { secs: 0, nanos: 0 },
        );
        assert(blocks@.len() == body.len());
        assert(txn_footprint(sb, *txn) == blocks@.len() + 1);
    }
    if blocks.len() >= u32::MAX as usize {
        return Err(Error::TransactionTooLarge);
    }
    let footprint: u32 = blocks.len() as u32 + 1;
    if footprint > geo.free_log_blocks(head, dirty_tail) {
        return Ok(CommitAttempt::NeedsLogSpace);
    }
    let was_clean = dirty_tail.is_none();
    let mut ops: Vec<CommitOp> = Vec::new();
    ops.push(CommitOp::EnterPhase(CommitPhase::Flush));
    let ghost opening = seq![OpView::EnterPhase(CommitPhase::Flush)];
    assert(op_views(ops@) =~= opening);
    push_flush_ops(&mut ops, &txn.ordered);
    let ghost flushed = opening + flush_ops(txn.ordered@);
    ops.push(CommitOp::EnterPhase(CommitPhase::Commit));
    let ghost locked = flushed + seq![OpView::EnterPhase(CommitPhase::Commit)];
    assert(op_views(ops@) =~= locked);
    let at = push_log_ops(&mut ops, geo, head, blocks);
    let ghost logged = locked + log_ops(sb, head as int, body);
    ops.push(CommitOp::Barrier);
    ops.push(CommitOp::EnterPhase(CommitPhase::CommitRecord));
    ops.push(CommitOp::WriteCommitBlock { log: at });
    ops.push(CommitOp::Barrier);
    let ghost recorded = logged + record_ops(at as int);
    assert(op_views(ops@) =~= recorded);
    if was_clean {
        ops.push(CommitOp::MoveTail { start: head });
        ops.push(CommitOp::Barrier);
    }
    ops.push(CommitOp::Publish);
    assert(op_views(ops@) =~= recorded + publish_ops(was_clean, head as int));
    Ok(
        CommitAttempt::Ready(
            CommitPlan { tid: txn.tid(), start: head, footprint, was_clean, ops },
        ),
    )
}

/// Adds the flushes of file data.
fn push_flush_ops(ops: &mut Vec<CommitOp>, ordered: &Vec<OrderedData>)
    ensures
        op_views(final(ops)@) == op_views(old(ops)@) + flush_ops(ordered@),
{
    let ghost before = op_views(ops@);
    let ghost all = Seq::new(ordered@.len(), |i: int| OpView::FlushData(ordered@[i]));
    let mut i: usize = 0;
    assert(op_views(ops@) =~= before + all.take(0));
    while i < ordered.len()
        invariant
            i <= ordered@.len(),
            all == Seq::new(ordered@.len(), |i: int| OpView::FlushData(ordered@[i])),
            op_views(ops@) == before + all.take(i as int),
        decreases ordered.len() - i,
    {
        let ghost head = op_views(ops@);
        ops.push(CommitOp::FlushData(ordered[i]));
        assert(op_views(ops@) =~= head.push(all[i as int]));
        i += 1;
        assert(op_views(ops@) =~= before + all.take(i as int));
    }
    assert(all.take(i as int) =~= all);
    if ordered.len() > 0 {
        ops.push(CommitOp::Barrier);
        assert(op_views(ops@) =~= (before + all).push(OpView::Barrier));
    }
    assert(op_views(ops@) =~= before + flush_ops(ordered@));
}

/// Adds the writes of the log blocks, and gives the log block behind them.
fn push_log_ops(
    ops: &mut Vec<CommitOp>,
    geo: &JournalGeometry,
    head: u32,
    blocks: Vec<Box<[u8; BLOCK_SIZE]>>,
) -> (at: u32)
    requires
        geo.wf(),
        in_ring(geo.superblock, head as int),
    ensures
        at == ring_advance(geo.superblock, head as int, blocks@.len()),
        op_views(final(ops)@) == op_views(old(ops)@) + log_ops(
            geo.superblock,
            head as int,
            boxed_views(blocks@),
        ),
{
    let ghost before = op_views(ops@);
    let ghost sb = geo.superblock;
    let ghost all = log_ops(sb, head as int, boxed_views(blocks@));
    let mut at: u32 = head;
    let mut i: usize = 0;
    assert(op_views(ops@) =~= before + all.take(0));
    while i < blocks.len()
        invariant
            geo.wf(),
            sb == geo.superblock,
            i <= blocks@.len(),
            all == log_ops(sb, head as int, boxed_views(blocks@)),
            in_ring(sb, at as int),
            at == ring_advance(sb, head as int, i as nat),
            op_views(ops@) == before + all.take(i as int),
        decreases blocks.len() - i,
    {
        let ghost front = op_views(ops@);
        ops.push(CommitOp::WriteLog { log: at, bytes: Box::new(*blocks[i]) });
        assert(op_views(ops@) =~= front.push(all[i as int]));
        at = geo.next_log_block(at);
        i += 1;
        assert(op_views(ops@) =~= before + all.take(i as int));
    }
    assert(all.take(i as int) =~= all);
    at
}

/// The log after an op.
pub open spec fn log_after_op(
    view: LogView,
    op: OpView,
    tid: Tid,
    seed: Option<JournalCsumSeed>,
    now: CommitTime,
) -> LogView {
    match op {
        OpView::WriteLog { log, bytes } => |p: int|
            if p == log {
                bytes
            } else {
                view(p)
            },
        OpView::WriteCommitBlock { log } => |p: int|
            if p == log {
                commit_block(tid, seed, now)
            } else {
                view(p)
            },
        _ => view,
    }
}

/// The log after a sequence of ops.
pub open spec fn log_after(
    view: LogView,
    ops: Seq<OpView>,
    tid: Tid,
    seed: Option<JournalCsumSeed>,
    now: CommitTime,
) -> LogView
    decreases ops.len(),
{
    if ops.len() == 0 {
        view
    } else {
        log_after_op(
            log_after(view, ops.drop_last(), tid, seed, now),
            ops.last(),
            tid,
            seed,
            now,
        )
    }
}

proof fn lemma_log_after_adds(
    view: LogView,
    a: Seq<OpView>,
    b: Seq<OpView>,
    tid: Tid,
    seed: Option<JournalCsumSeed>,
    now: CommitTime,
)
    ensures
        log_after(view, a + b, tid, seed, now) == log_after(
            log_after(view, a, tid, seed, now),
            b,
            tid,
            seed,
            now,
        ),
    decreases b.len(),
{
    if b.len() == 0 {
        assert(a + b =~= a);
    } else {
        assert((a + b).drop_last() =~= a + b.drop_last());
        assert((a + b).last() == b.last());
        lemma_log_after_adds(view, a, b.drop_last(), tid, seed, now);
    }
}

/// Whether an op writes to the log.
pub open spec fn writes_log(op: OpView) -> bool {
    op is WriteLog || op is WriteCommitBlock
}

proof fn lemma_log_untouched(
    view: LogView,
    ops: Seq<OpView>,
    tid: Tid,
    seed: Option<JournalCsumSeed>,
    now: CommitTime,
)
    requires
        forall|i: int| 0 <= i < ops.len() ==> !writes_log(#[trigger] ops[i]),
    ensures
        log_after(view, ops, tid, seed, now) == view,
    decreases ops.len(),
{
    if ops.len() > 0 {
        let front = ops.drop_last();
        assert forall|i: int| 0 <= i < front.len() implies !writes_log(#[trigger] front[i]) by {
            assert(front[i] == ops[i]);
        }
        lemma_log_untouched(view, front, tid, seed, now);
        assert(!writes_log(ops[ops.len() - 1]));
    }
}

proof fn lemma_log_written(
    view: LogView,
    sb: JournalSuperblock,
    head: int,
    log: Seq<Seq<u8>>,
    n: nat,
    tid: Tid,
    seed: Option<JournalCsumSeed>,
    now: CommitTime,
)
    requires
        sb.wf(),
        in_ring(sb, head),
        n <= log.len() <= ring_size(sb),
    ensures
        forall|i: int|
            0 <= i < n ==> log_after(view, log_ops(sb, head, log).take(n as int), tid, seed, now)(
                #[trigger] ring_advance(sb, head, i as nat),
            ) == log[i],
        forall|p: int|
            (forall|i: int| 0 <= i < n ==> #[trigger] ring_advance(sb, head, i as nat) != p)
                ==> #[trigger] log_after(
                view,
                log_ops(sb, head, log).take(n as int),
                tid,
                seed,
                now,
            )(p) == view(p),
    decreases n,
{
    let ops = log_ops(sb, head, log);
    if n > 0 {
        let k = (n - 1) as nat;
        lemma_log_written(view, sb, head, log, k, tid, seed, now);
        assert(ops.take(n as int).drop_last() =~= ops.take(k as int));
        let before = log_after(view, ops.take(k as int), tid, seed, now);
        let after = log_after(view, ops.take(n as int), tid, seed, now);
        let at = ring_advance(sb, head, k);
        assert(forall|p: int| #[trigger] after(p) == if p == at {
            log[k as int]
        } else {
            before(p)
        });
        assert forall|i: int| 0 <= i < n implies after(
            #[trigger] ring_advance(sb, head, i as nat),
        ) == log[i] by {
            if i < k {
                ring_positions_are_distinct(sb, head, i as nat, k);
            }
        }
        assert forall|p: int|
            (forall|i: int| 0 <= i < n ==> #[trigger] ring_advance(sb, head, i as nat) != p)
                implies #[trigger] after(p) == view(p) by {
            assert(ring_advance(sb, head, k) != p);
            assert(forall|i: int| 0 <= i < k ==> #[trigger] ring_advance(sb, head, i as nat) != p);
            assert(before(p) == view(p));
        }
    }
}

/// Whether a log block lies among the `n` blocks from `head` on.
pub open spec fn among(sb: JournalSuperblock, head: int, n: nat, p: int) -> bool {
    exists|i: int| 0 <= i < n && #[trigger] ring_advance(sb, head, i as nat) == p
}

/// A commit that is carried out lays the transaction down in the log from the
/// head on, and changes no log block but those of its footprint.
pub proof fn commit_lays_down_the_transaction(
    sb: JournalSuperblock,
    txn: Transaction,
    head: u32,
    was_clean: bool,
    view: LogView,
    now: CommitTime,
)
    requires
        sb.wf(),
        in_ring(sb, head as int),
        txn_footprint(sb, txn) <= ring_size(sb),
    ensures
        holds(
            log_after(
                view,
                commit_ops(sb, txn.ordered@, body_log(sb, txn), head as int, was_clean),
                txn.tid,
                sb.csum_seed,
                now,
            ),
            sb,
            head as int,
            transaction_log(
                sb.tag_layout,
                sb.csum_seed,
                txn.tid,
                txn.images(),
                txn.revoked(),
                now,
            ),
        ),
        forall|p: int|
            !among(sb, head as int, txn_footprint(sb, txn), p) ==> #[trigger] log_after(
                view,
                commit_ops(sb, txn.ordered@, body_log(sb, txn), head as int, was_clean),
                txn.tid,
                sb.csum_seed,
                now,
            )(p) == view(p),
{
    let body = body_log(sb, txn);
    let at = ring_advance(sb, head as int, body.len());
    let seed = sb.csum_seed;
    let tid = txn.tid;
    let all = transaction_log(sb.tag_layout, seed, tid, txn.images(), txn.revoked(), now);
    let opening = seq![OpView::EnterPhase(CommitPhase::Flush)] + flush_ops(txn.ordered@) + seq![
        OpView::EnterPhase(CommitPhase::Commit),
    ];
    let writes = log_ops(sb, head as int, body);
    let record = record_ops(at);
    let closing = publish_ops(was_clean, head as int);
    transaction_log_has_footprint(sb.tag_layout, seed, tid, txn.images(), txn.revoked(), now);
    assert(all =~= body + seq![commit_block(tid, seed, now)]);
    lemma_log_after_adds(view, opening + writes + record, closing, tid, seed, now);
    lemma_log_after_adds(view, opening + writes, record, tid, seed, now);
    lemma_log_after_adds(view, opening, writes, tid, seed, now);
    lemma_log_untouched(view, opening, tid, seed, now);
    lemma_log_written(view, sb, head as int, body, body.len(), tid, seed, now);
    assert(writes.take(body.len() as int) =~= writes);
    let logged = log_after(view, writes, tid, seed, now);
    let recorded = log_after(logged, record, tid, seed, now);
    lemma_record(logged, at, tid, seed, now);
    lemma_log_untouched(recorded, closing, tid, seed, now);
    let done = log_after(
        view,
        commit_ops(sb, txn.ordered@, body, head as int, was_clean),
        tid,
        seed,
        now,
    );
    assert(done == recorded);
    assert forall|i: int| 0 <= i < all.len() implies done(
        #[trigger] ring_advance(sb, head as int, i as nat),
    ) == all[i] by {
        if i < body.len() {
            ring_positions_are_distinct(sb, head as int, i as nat, body.len());
        }
    }
    assert forall|p: int| !among(sb, head as int, txn_footprint(sb, txn), p) implies #[trigger] done(
        p,
    ) == view(p) by {
        assert forall|i: int| 0 <= i < body.len() + 1 implies #[trigger] ring_advance(
            sb,
            head as int,
            i as nat,
        ) != p by {}
        assert(at != p);
    }
}

proof fn lemma_record(
    view: LogView,
    at: int,
    tid: Tid,
    seed: Option<JournalCsumSeed>,
    now: CommitTime,
)
    ensures
        forall|p: int| #[trigger] log_after(view, record_ops(at), tid, seed, now)(p) == if p == at {
            commit_block(tid, seed, now)
        } else {
            view(p)
        },
{
    let r = record_ops(at);
    let before = r.take(2);
    assert forall|i: int| 0 <= i < before.len() implies !writes_log(#[trigger] before[i]) by {
        assert(before[i] == r[i]);
    }
    lemma_log_untouched(view, before, tid, seed, now);
    assert(r.take(3).drop_last() =~= before);
    assert(r.drop_last() =~= r.take(3));
    assert(log_after(view, r, tid, seed, now) == log_after(view, r.take(3), tid, seed, now));
    assert(r.take(3).last() == r[2]);
}

/// A commit that fits leaves every transaction that still has to be
/// checkpointed as it was: what the log holds from the tail up to the head is
/// held after the commit too.
pub proof fn commit_keeps_the_tail(
    sb: JournalSuperblock,
    txn: Transaction,
    head: u32,
    tail: u32,
    view: LogView,
    blocks: Seq<Seq<u8>>,
    now: CommitTime,
)
    requires
        sb.wf(),
        in_ring(sb, head as int),
        in_ring(sb, tail as int),
        txn_footprint(sb, txn) <= ring_free(sb, head as int, Some(tail)),
        blocks.len() <= ring_used(sb, head as int, tail as int),
        holds(view, sb, tail as int, blocks),
    ensures
        holds(
            log_after(
                view,
                commit_ops(sb, txn.ordered@, body_log(sb, txn), head as int, false),
                txn.tid,
                sb.csum_seed,
                now,
            ),
            sb,
            tail as int,
            blocks,
        ),
{
    assert(ring_used(sb, head as int, tail as int) >= 0) by {
        vstd::arithmetic::div_mod::lemma_mod_bound(head - tail, ring_size(sb));
    }
    commit_lays_down_the_transaction(sb, txn, head, false, view, now);
    let done = log_after(
        view,
        commit_ops(sb, txn.ordered@, body_log(sb, txn), head as int, false),
        txn.tid,
        sb.csum_seed,
        now,
    );
    assert forall|i: int| 0 <= i < blocks.len() implies done(
        #[trigger] ring_advance(sb, tail as int, i as nat),
    ) == blocks[i] by {
        let p = ring_advance(sb, tail as int, i as nat);
        if among(sb, head as int, txn_footprint(sb, txn), p) {
            let k = choose|k: int|
                0 <= k < txn_footprint(sb, txn) && #[trigger] ring_advance(
                    sb,
                    head as int,
                    k as nat,
                ) == p;
            fitting_commit_spares_the_tail(sb, head, tail, k as nat, i as nat);
        }
        assert(done(p) == view(p));
    }
}

/// The order that makes a commit atomic. The commit block is written once, all
/// log blocks are written before it with a barrier between, and the file data
/// before the log blocks with a barrier between. The journal superblock is
/// moved and the commit made known only after a barrier behind the commit
/// block.
pub proof fn commit_order_is_crash_safe(
    sb: JournalSuperblock,
    ordered: Seq<OrderedData>,
    log: Seq<Seq<u8>>,
    head: int,
    was_clean: bool,
    i: int,
    j: int,
)
    requires
        0 <= i < commit_ops(sb, ordered, log, head, was_clean).len(),
        0 <= j < commit_ops(sb, ordered, log, head, was_clean).len(),
    ensures
        ({
            let ops = commit_ops(sb, ordered, log, head, was_clean);
            let barrier_between = |a: int, b: int|
                exists|k: int| a < k < b && #[trigger] ops[k] is Barrier;
            &&& ops[i] is FlushData && ops[j] is WriteLog ==> i < j && barrier_between(i, j)
            &&& ops[i] is WriteLog && ops[j] is WriteCommitBlock ==> i < j && barrier_between(i, j)
            &&& ops[i] is WriteCommitBlock && ops[j] is WriteCommitBlock ==> i == j
            &&& ops[i] is WriteCommitBlock && (ops[j] is MoveTail || ops[j] is Publish) ==> i < j
                && barrier_between(i, j)
            &&& ops[i] is MoveTail && ops[j] is Publish ==> i < j && barrier_between(i, j)
        }),
{
    let ops = commit_ops(sb, ordered, log, head, was_clean);
    let n = flush_ops(ordered).len() as int;
    let m = log.len() as int;
    // Where each part begins.
    let flushes = 1int;
    let commit_phase = 1 + n;
    let writes = 2 + n;
    let record = writes + m;
    let closing = record + 4;
    if ordered.len() > 0 {
        assert(ops[n] is Barrier);
    }
    assert(ops[record] is Barrier);
    assert(ops[record + 2] is WriteCommitBlock);
    assert(ops[record + 3] is Barrier);
    if was_clean {
        assert(ops[closing + 1] is Barrier);
    }
}

} // verus!
