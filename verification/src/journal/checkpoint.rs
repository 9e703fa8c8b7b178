//! Checkpointing: bringing committed transactions home from the log, oldest
//! first, and moving the tail of the log past those that are home.
//!
//! Reads and writes are made by the caller, as in [`crate::journal::apply`].

use vstd::prelude::*;

use crate::bytes::BLOCK_SIZE;
use crate::error::Error;
use crate::journal::apply::{
    applied, covers, ApplyNext, ApplyOutcome, ApplyWalk, CoverNext, CoverScan, HomeWrite, LogView,
};
use crate::journal::blockmap::{BlockMap, Dated};
use crate::journal::descriptor::Image;
use crate::journal::geometry::{in_ring, ring_free, JournalGeometry};
use crate::journal::revoke::RevokeTable;
use crate::journal::superblock::{
    stamped, with_clean_log, with_tail, JournalSuperblock, RawJournalSuperblock,
};
use crate::journal::tid::{tid_distance, tid_geq, tid_next, tid_prev, Tid};

verus! {

/// Where a pass has come to, when it has brought something home: the tail is
/// to be moved there.
#[derive(Clone, Copy, Debug, PartialEq, Eq, Structural)]
pub struct Retirement {
    /// Whether a committed transaction is left in the log.
    pub stopped_early: bool,
    /// The log block behind the last transaction that came home.
    pub log: u32,
    /// The id after the last transaction that came home.
    pub tid: Tid,
    /// The last committed transaction.
    pub committed_tid: Tid,
    /// The head of the log.
    pub head: u32,
}

/// The journal superblock once the tail was moved: it points at the first
/// transaction that is left, or says that the log is clean and where it goes
/// on.
pub open spec fn retired_superblock(retirement: Retirement, raw: Seq<u8>) -> Seq<u8> {
    stamped(
        if retirement.stopped_early {
            with_tail(raw, retirement.log, retirement.tid)
        } else {
            with_clean_log(raw, tid_next(retirement.committed_tid), retirement.head)
        },
    )
}

impl Retirement {
    /// The last transaction that came home.
    pub open spec fn through(self) -> Tid {
        tid_prev(self.tid)
    }

    /// The new tail of the log.
    pub open spec fn tail(self) -> Option<u32> {
        if self.stopped_early {
            Some(self.log)
        } else {
            None
        }
    }

    /// Moves the tail in the journal superblock, ready to be written.
    pub fn rewrite_superblock(&self, raw: &mut RawJournalSuperblock)
        ensures
            final(raw).bytes@ == retired_superblock(*self, old(raw).bytes@),
    {
        if self.stopped_early {
            raw.retail(self.log, self.tid);
        } else {
            raw.mark_clean(self.committed_tid.next(), self.head);
        }
    }
}

/// What a pass does: the blocks it writes home, in their order, and where it
/// comes to. It comes to nothing when it brings no transaction home.
#[verifier::ext_equal]
pub struct PassOutcome {
    pub writes: Seq<Image>,
    pub result: Result<Option<Retirement>, Error>,
}

/// What a pass goes by.
pub struct PassEnv {
    pub sb: JournalSuperblock,
    /// How many log blocks are mapped.
    pub mapped: nat,
    /// What committed transactions have revoked.
    pub records: Map<u64, Dated<()>>,
    /// What transactions that are not committed yet have revoked.
    pub unpublished: Set<u64>,
    /// The last committed transaction.
    pub committed: Tid,
    /// The head of the log.
    pub head: u32,
    /// How many free log blocks are enough, if not all are wanted.
    pub target: Option<u32>,
}

/// A pass that first makes some writes.
pub open spec fn after_writes(writes: Seq<Image>, rest: PassOutcome) -> PassOutcome {
    PassOutcome { writes: writes + rest.writes, result: rest.result }
}

/// The end of a pass at the log block `log`, in front of the transaction `tid`.
pub open spec fn pass_end(
    env: PassEnv,
    stopped_early: bool,
    log: int,
    tid: Tid,
    applied_any: bool,
) -> PassOutcome {
    PassOutcome {
        writes: Seq::empty(),
        result: Ok(
            if applied_any {
                Some(
                    Retirement {
                        stopped_early,
                        log: log as u32,
                        tid,
                        committed_tid: env.committed,
                        head: env.head,
                    },
                )
            } else {
                None
            },
        ),
    }
}

/// A pass that fails.
pub open spec fn pass_fails(e: Error) -> PassOutcome {
    PassOutcome { writes: Seq::empty(), result: Err(e) }
}

/// How many transactions there are from `tid` up to the committed one.
pub open spec fn txns_left(committed: Tid, tid: Tid) -> nat {
    if tid_geq(committed, tid) {
        (tid_distance(committed, tid) + 1) as nat
    } else {
        0
    }
}

/// Whether so much of the log is free, with its tail at `log`, that a pass may
/// stop.
pub open spec fn target_met(env: PassEnv, log: int) -> bool {
    env.target matches Some(wanted) && ring_free(env.sb, env.head as int, Some(log as u32))
        >= wanted
}

/// What a pass does from the log block `log` on, where the transaction `tid`
/// begins, with `left` transactions left.
pub open spec fn passed(
    env: PassEnv,
    view: LogView,
    log: int,
    tid: Tid,
    applied_any: bool,
    left: nat,
) -> PassOutcome
    decreases left, 2int,
{
    if left == 0 {
        pass_end(env, false, log, tid, applied_any)
    } else if env.unpublished == Set::<u64>::empty() {
        after_apply(
            env,
            view,
            tid,
            (left - 1) as nat,
            applied(env.sb, env.mapped, env.records, view, log, tid),
        )
    } else {
        after_cover(
            env,
            view,
            log,
            tid,
            applied_any,
            (left - 1) as nat,
            covers(env.sb, env.mapped, env.unpublished, view, log, tid),
        )
    }
}

/// What a pass does once it knows whether the transaction `tid` covers a block
/// that is revoked but not yet published. It stops in front of one that does:
/// the block may be in use again already, and the revoke may still be lost.
pub open spec fn after_cover(
    env: PassEnv,
    view: LogView,
    log: int,
    tid: Tid,
    applied_any: bool,
    rest: nat,
    covered: Result<bool, Error>,
) -> PassOutcome
    decreases rest, 4int,
{
    match covered {
        Err(e) => pass_fails(e),
        Ok(true) => pass_end(env, true, log, tid, applied_any),
        Ok(false) => after_apply(
            env,
            view,
            tid,
            rest,
            applied(env.sb, env.mapped, env.records, view, log, tid),
        ),
    }
}

/// What a pass does once the transaction `tid` has come home, with `rest`
/// transactions behind it.
pub open spec fn after_apply(
    env: PassEnv,
    view: LogView,
    tid: Tid,
    rest: nat,
    outcome: ApplyOutcome,
) -> PassOutcome
    decreases rest, 3int,
{
    match outcome.result {
        Err(e) => PassOutcome { writes: outcome.writes, result: Err(e) },
        Ok(next) => after_writes(
            outcome.writes,
            if rest > 0 && target_met(env, next as int) {
                pass_end(env, true, next as int, tid_next(tid), true)
            } else {
                passed(env, view, next as int, tid_next(tid), true, rest)
            },
        ),
    }
}

/// What a pass does over a log with the tail `tail`, whose first transaction
/// is `tail_tid`. There is nothing to do where the log is clean, or where
/// enough of it is free.
pub open spec fn checkpointed(
    env: PassEnv,
    view: LogView,
    tail: Option<u32>,
    tail_tid: Tid,
) -> PassOutcome {
    match tail {
        None => PassOutcome { writes: Seq::empty(), result: Ok(None) },
        Some(tail) => if target_met(env, tail as int) {
            PassOutcome { writes: Seq::empty(), result: Ok(None) }
        } else {
            passed(env, view, tail as int, tail_tid, false, txns_left(env.committed, tail_tid))
        },
    }
}

/// What a pass starts from: the journal's state at one moment.
pub struct PassInput {
    pub tail_block: Option<u32>,
    pub tail_tid: Tid,
    pub committed_tid: Tid,
    pub head: u32,
    pub revoked: RevokeTable,
    pub unpublished: BlockMap<()>,
}

impl PassInput {
    /// The positions are in the ring, and the maps are sorted.
    pub open spec fn wf(self, sb: JournalSuperblock) -> bool {
        &&& self.revoked.wf()
        &&& self.unpublished.wf()
        &&& in_ring(sb, self.head as int)
        &&& self.tail_block matches Some(tail) ==> in_ring(sb, tail as int)
    }

    /// What a pass from here goes by.
    pub open spec fn env(self, geo: JournalGeometry, target: Option<u32>) -> PassEnv {
        PassEnv {
            sb: geo.superblock,
            mapped: geo.block_map@.len(),
            records: self.revoked@,
            unpublished: self.unpublished@.dom(),
            committed: self.committed_tid,
            head: self.head,
            target,
        }
    }
}

/// What a pass is at.
pub enum PassStage {
    /// Finding out whether a transaction has to wait.
    Cover(CoverScan),
    /// Bringing a transaction home.
    Apply(ApplyWalk),
}

/// A pass. It has asked for a log block.
pub struct CheckpointPass {
    pub input: PassInput,
    pub target: Option<u32>,
    /// Where the transaction at hand begins.
    pub log: u32,
    /// The transaction at hand.
    pub tid: Tid,
    pub applied_any: bool,
    pub stage: PassStage,
}

/// How a pass goes on.
pub enum PassNext {
    /// It needs the log block [`CheckpointPass::wanted`].
    Read(CheckpointPass),
    /// It is done, and has brought something home. All that it wrote has to be
    /// on the disk before the tail is moved.
    Retire(Retirement),
    /// It is done, and has brought nothing home.
    Idle,
    /// It cannot go on.
    Failed(Error),
}

/// What a log block leads to: a block to be written home, if any, and how the
/// pass goes on after that write.
pub struct PassStep {
    pub write: Option<HomeWrite>,
    pub next: PassNext,
}

impl PassNext {
    /// What the pass still does.
    pub open spec fn outcome(self, geo: JournalGeometry, view: LogView) -> PassOutcome {
        match self {
            PassNext::Read(pass) => pass.outcome(geo, view),
            PassNext::Retire(retirement) => PassOutcome {
                writes: Seq::empty(),
                result: Ok(Some(retirement)),
            },
            PassNext::Idle => PassOutcome { writes: Seq::empty(), result: Ok(None) },
            PassNext::Failed(e) => pass_fails(e),
        }
    }

    /// A pass that goes on is well-formed, and one that is done has come to a
    /// place in the ring.
    pub open spec fn wf(self, geo: JournalGeometry) -> bool {
        match self {
            PassNext::Read(pass) => pass.wf(geo),
            PassNext::Retire(retirement) => in_ring(geo.superblock, retirement.log as int),
            _ => true,
        }
    }
}

impl PassStep {
    /// What the pass still does, with the write of this step.
    pub open spec fn outcome(self, geo: JournalGeometry, view: LogView) -> PassOutcome {
        let rest = self.next.outcome(geo, view);
        match self.write {
            None => rest,
            Some(write) => after_writes(
                seq![Image { blocknr: write.blocknr, bytes: write.bytes@ }],
                rest,
            ),
        }
    }
}

impl CheckpointPass {
    /// The pass is at a committed transaction, and its walk is well-formed.
    pub open spec fn wf(self, geo: JournalGeometry) -> bool {
        &&& self.input.wf(geo.superblock)
        &&& in_ring(geo.superblock, self.log as int)
        &&& tid_geq(self.input.committed_tid, self.tid)
        &&& match self.stage {
            PassStage::Cover(scan) => scan.wf(geo),
            PassStage::Apply(walk) => walk.wf(geo) && in_ring(geo.superblock, walk.log as int),
        }
    }

    /// What the pass still does.
    pub open spec fn outcome(self, geo: JournalGeometry, view: LogView) -> PassOutcome {
        let env = self.input.env(geo, self.target);
        let rest = (txns_left(env.committed, self.tid) - 1) as nat;
        match self.stage {
            PassStage::Cover(scan) => after_cover(
                env,
                view,
                self.log as int,
                self.tid,
                self.applied_any,
                rest,
                scan.outcome(env.sb, env.mapped, env.unpublished, view),
            ),
            PassStage::Apply(walk) => after_apply(
                env,
                view,
                self.tid,
                rest,
                walk.outcome(env.sb, env.mapped, env.records, view),
            ),
        }
    }

    /// How many log blocks were consumed at this stage of the transaction at hand.
    pub open spec fn consumed(self) -> u64 {
        match self.stage {
            PassStage::Cover(scan) => scan.consumed,
            PassStage::Apply(walk) => walk.consumed,
        }
    }

    /// The pass has got further than `before`, which it goes on from: to the next
    /// transaction, to applying the one at hand, or to a later block of it.
    pub open spec fn is_ahead_of(self, before: Self) -> bool {
        &&& self.input == before.input
        &&& self.target == before.target
        &&& {
            ||| self.tid == tid_next(before.tid)
            ||| self.tid == before.tid && before.stage is Cover && self.stage is Apply
            ||| self.tid == before.tid && (before.stage is Cover <==> self.stage is Cover)
                && before.consumed() < self.consumed()
        }
    }

    /// The log block that the pass has asked for.
    pub open spec fn wanted_log(self) -> u32 {
        match self.stage {
            PassStage::Cover(scan) => scan.log,
            PassStage::Apply(walk) => walk.log,
        }
    }

    /// The log block that the pass has asked for.
    pub fn wanted(&self) -> (log: u32)
        ensures
            log == self.wanted_log(),
    {
        match &self.stage {
            PassStage::Cover(scan) => scan.log,
            PassStage::Apply(walk) => walk.log,
        }
    }

    /// Starts a pass. With a target it stops as soon as so many log blocks are
    /// free; without one it empties the log.
    pub fn start(geo: &JournalGeometry, input: PassInput, target: Option<u32>) -> (next: PassNext)
        requires
            geo.wf(),
            input.wf(geo.superblock),
        ensures
            next.wf(*geo),
            forall|view: LogView|
                #![trigger next.outcome(*geo, view)]
                next.outcome(*geo, view) == checkpointed(
                    input.env(*geo, target),
                    view,
                    input.tail_block,
                    input.tail_tid,
                ),
    {
        let tail: u32 = match input.tail_block {
            None => {
                return PassNext::Idle;
            },
            Some(tail) => tail,
        };
        if Self::enough(geo, &input, target, tail) {
            return PassNext::Idle;
        }
        let tid = input.tail_tid;
        Self::at_transaction(geo, input, target, tail, tid, false)
    }

    /// Whether enough of the log is free with its tail at `log`.
    fn enough(geo: &JournalGeometry, input: &PassInput, target: Option<u32>, log: u32) -> (r: bool)
        requires
            geo.wf(),
            input.wf(geo.superblock),
            in_ring(geo.superblock, log as int),
        ensures
            r == target_met(input.env(*geo, target), log as int),
    {
        match target {
            None => false,
            Some(wanted) => geo.free_log_blocks(input.head, Some(log)) >= wanted,
        }
    }

    /// Goes on at the log block `log`, where the transaction `tid` begins.
    fn at_transaction(
        geo: &JournalGeometry,
        input: PassInput,
        target: Option<u32>,
        log: u32,
        tid: Tid,
        applied_any: bool,
    ) -> (next: PassNext)
        requires
            geo.wf(),
            input.wf(geo.superblock),
            in_ring(geo.superblock, log as int),
        ensures
            next.wf(*geo),
            next matches PassNext::Read(pass) ==> pass.input == input && pass.target == target
                && pass.tid == tid,
            forall|view: LogView|
                #![trigger next.outcome(*geo, view)]
                next.outcome(*geo, view) == passed(
                    input.env(*geo, target),
                    view,
                    log as int,
                    tid,
                    applied_any,
                    txns_left(input.committed_tid, tid),
                ),
    {
        if !input.committed_tid.geq(tid) {
            return Self::end(&input, false, log, tid, applied_any);
        }
        if input.unpublished.is_empty() {
            return Self::apply(geo, input, target, log, tid, applied_any);
        }
        match CoverScan::start(geo, log, tid) {
            Ok(scan) => PassNext::Read(
                CheckpointPass {
                    input,
                    target,
                    log,
                    tid,
                    applied_any,
                    stage: PassStage::Cover(scan),
                },
            ),
            Err(e) => PassNext::Failed(e),
        }
    }

    /// Ends the pass in front of the transaction `tid`.
    fn end(input: &PassInput, stopped_early: bool, log: u32, tid: Tid, applied_any: bool) -> (next:
        PassNext)
        ensures
            applied_any ==> next == PassNext::Retire(
                Retirement {
                    stopped_early,
                    log,
                    tid,
                    committed_tid: input.committed_tid,
                    head: input.head,
                },
            ),
            !applied_any ==> next == PassNext::Idle,
    {
        if applied_any {
            PassNext::Retire(
                Retirement {
                    stopped_early,
                    log,
                    tid,
                    committed_tid: input.committed_tid,
                    head: input.head,
                },
            )
        } else {
            PassNext::Idle
        }
    }

    /// Starts to bring the transaction `tid` home.
    fn apply(
        geo: &JournalGeometry,
        input: PassInput,
        target: Option<u32>,
        log: u32,
        tid: Tid,
        applied_any: bool,
    ) -> (next: PassNext)
        requires
            geo.wf(),
            input.wf(geo.superblock),
            in_ring(geo.superblock, log as int),
            tid_geq(input.committed_tid, tid),
        ensures
            next.wf(*geo),
            next matches PassNext::Read(pass) ==> pass.input == input && pass.target == target
                && pass.tid == tid && pass.stage is Apply,
            forall|view: LogView|
                #![trigger next.outcome(*geo, view)]
                next.outcome(*geo, view) == after_apply(
                    input.env(*geo, target),
                    view,
                    tid,
                    (txns_left(input.committed_tid, tid) - 1) as nat,
                    applied(
                        geo.superblock,
                        geo.block_map@.len(),
                        input.revoked@,
                        view,
                        log as int,
                        tid,
                    ),
                ),
    {
        match ApplyWalk::start(geo, log, tid) {
            Ok(walk) => PassNext::Read(
                CheckpointPass {
                    input,
                    target,
                    log,
                    tid,
                    applied_any,
                    stage: PassStage::Apply(walk),
                },
            ),
            Err(e) => PassNext::Failed(e),
        }
    }

    /// Takes the log block that the pass has asked for. Each step gets further.
    pub fn on_block(self, geo: &JournalGeometry, block: &[u8; BLOCK_SIZE]) -> (step: PassStep)
        requires
            geo.wf(),
            self.wf(*geo),
        ensures
            step.next.wf(*geo),
            step.next matches PassNext::Read(pass) ==> pass.is_ahead_of(self),
            forall|view: LogView|
                #![trigger self.outcome(*geo, view)]
                view(self.wanted_log() as int) == block@ ==> self.outcome(*geo, view)
                    == step.outcome(*geo, view),
    {
        let CheckpointPass { input, target, log, tid, applied_any, stage } = self;
        match stage {
            PassStage::Cover(scan) => {
                let next = match scan.on_block(geo, &input.unpublished, block) {
                    CoverNext::Read(scan) => PassNext::Read(
                        CheckpointPass {
                            input,
                            target,
                            log,
                            tid,
                            applied_any,
                            stage: PassStage::Cover(scan),
                        },
                    ),
                    CoverNext::Done(true) => Self::end(&input, true, log, tid, applied_any),
                    CoverNext::Done(false) => Self::apply(
                        geo,
                        input,
                        target,
                        log,
                        tid,
                        applied_any,
                    ),
                    CoverNext::Failed(e) => PassNext::Failed(e),
                };
                PassStep { write: None, next }
            },
            PassStage::Apply(walk) => {
                let step = walk.on_block(geo, &input.revoked, block);
                let next = match step.next {
                    ApplyNext::Read(walk) => PassNext::Read(
                        CheckpointPass {
                            input,
                            target,
                            log,
                            tid,
                            applied_any,
                            stage: PassStage::Apply(walk),
                        },
                    ),
                    ApplyNext::Done(at) => Self::behind_transaction(geo, input, target, at, tid),
                    ApplyNext::Failed(e) => PassNext::Failed(e),
                };
                PassStep { write: step.write, next }
            },
        }
    }

    /// Goes on at the log block `log`, behind the transaction `tid`.
    fn behind_transaction(
        geo: &JournalGeometry,
        input: PassInput,
        target: Option<u32>,
        log: u32,
        tid: Tid,
    ) -> (next: PassNext)
        requires
            geo.wf(),
            input.wf(geo.superblock),
            in_ring(geo.superblock, log as int),
            tid_geq(input.committed_tid, tid),
        ensures
            next.wf(*geo),
            next matches PassNext::Read(pass) ==> pass.input == input && pass.target == target
                && pass.tid == tid_next(tid),
            forall|view: LogView|
                #![trigger next.outcome(*geo, view)]
                next.outcome(*geo, view) == after_apply(
                    input.env(*geo, target),
                    view,
                    tid,
                    (txns_left(input.committed_tid, tid) - 1) as nat,
                    ApplyOutcome { writes: Seq::empty(), result: Ok(log) },
                ),
    {
        let after = tid.next();
        assert(txns_left(input.committed_tid, after) == txns_left(input.committed_tid, tid) - 1);
        assert(forall|rest: PassOutcome| after_writes(Seq::empty(), rest) =~= rest);
        if input.committed_tid.geq(after) && Self::enough(geo, &input, target, log) {
            return Self::end(&input, true, log, after, true);
        }
        Self::at_transaction(geo, input, target, log, after, true)
    }
}

} // verus!
