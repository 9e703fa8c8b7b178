//! What a checkpoint pass does over a log that holds committed transactions:
//! it brings a prefix of them home, and moves the tail exactly behind it.

use vstd::prelude::*;

use crate::journal::apply::{applied, LogView};
use crate::journal::blockmap::Dated;
use crate::journal::chain::{
    footprint, transaction_log, transaction_log_has_footprint, CommitTime,
};
use crate::journal::checkpoint::{
    after_apply, after_writes, checkpointed, pass_end, passed, target_met, txns_left, PassEnv,
    PassOutcome, Retirement,
};
use crate::journal::commit::{
    among, body_log, commit_fault, commit_lays_down_the_transaction, commit_ops, log_after,
    txn_footprint,
};
use crate::journal::descriptor::Image;
use crate::journal::geometry::{
    fitting_commit_spares_the_tail, in_ring, ring_advance, ring_advance_adds,
    ring_advance_is_modular, ring_free, ring_size, ring_used,
};
use crate::journal::replay::{
    committed_transaction_covers, committed_transaction_replays, holds, loggable, restores, touches,
};
use crate::journal::superblock::JournalSuperblock;
use crate::journal::tid::{tid_distance_leads_there, tid_next, tid_plus, tid_steps_add, Tid};
use crate::journal::transaction::{lemma_images_are_full, Transaction};

verus! {

/// A transaction that was committed to the log.
pub struct LoggedTxn {
    pub caps: Seq<Image>,
    pub revokes: Seq<u64>,
    pub now: CommitTime,
}

/// How many log blocks a logged transaction takes.
pub open spec fn logged_footprint(sb: JournalSuperblock, txn: LoggedTxn) -> nat {
    footprint(sb.tag_layout, txn.caps.len(), txn.revokes.len())
}

/// The log holds these transactions one after another: the first one at
/// `start` with the id `tid`, and each other one behind the one before it.
pub open spec fn live_log(
    view: LogView,
    sb: JournalSuperblock,
    start: int,
    tid: Tid,
    txns: Seq<LoggedTxn>,
) -> bool
    decreases txns.len(),
{
    txns.len() > 0 ==> {
        let txn = txns[0];
        &&& loggable(sb, txn.caps, txn.revokes)
        &&& logged_footprint(sb, txn) <= ring_size(sb)
        &&& holds(
            view,
            sb,
            start,
            transaction_log(sb.tag_layout, sb.csum_seed, tid, txn.caps, txn.revokes, txn.now),
        )
        &&& live_log(
            view,
            sb,
            ring_advance(sb, start, logged_footprint(sb, txn)),
            tid_next(tid),
            txns.skip(1),
        )
    }
}

/// Where the transaction behind these begins.
pub open spec fn log_end(sb: JournalSuperblock, start: int, txns: Seq<LoggedTxn>) -> int
    decreases txns.len(),
{
    if txns.len() == 0 {
        start
    } else {
        log_end(sb, ring_advance(sb, start, logged_footprint(sb, txns[0])), txns.skip(1))
    }
}

/// The images that transactions restore, oldest first.
pub open spec fn all_restores(
    records: Map<u64, Dated<()>>,
    tid: Tid,
    txns: Seq<LoggedTxn>,
) -> Seq<Image>
    decreases txns.len(),
{
    if txns.len() == 0 {
        Seq::empty()
    } else {
        restores(records, tid, txns[0].caps) + all_restores(records, tid_next(tid), txns.skip(1))
    }
}

/// How many of these transactions a pass brings home: it stops in front of the
/// first one that touches a block with a revoke that is not published, and
/// once enough of the log is free.
pub open spec fn prefix_len(
    env: PassEnv,
    start: int,
    applied_any: bool,
    txns: Seq<LoggedTxn>,
) -> nat
    decreases txns.len(),
{
    if txns.len() == 0 || touches(env.unpublished, txns[0].caps) || (applied_any && target_met(
        env,
        start,
    )) {
        0
    } else {
        1 + prefix_len(
            env,
            ring_advance(env.sb, start, logged_footprint(env.sb, txns[0])),
            true,
            txns.skip(1),
        )
    }
}

/// What a pass that brings the first `n` of these transactions home does.
pub open spec fn brings_home(
    env: PassEnv,
    start: int,
    tid: Tid,
    applied_any: bool,
    txns: Seq<LoggedTxn>,
    n: nat,
) -> PassOutcome {
    after_writes(
        all_restores(env.records, tid, txns.take(n as int)),
        pass_end(
            env,
            n < txns.len(),
            log_end(env.sb, start, txns.take(n as int)),
            tid_plus(tid, n as int),
            applied_any || n > 0,
        ),
    )
}

proof fn lemma_prefix_bound(env: PassEnv, start: int, applied_any: bool, txns: Seq<LoggedTxn>)
    ensures
        prefix_len(env, start, applied_any, txns) <= txns.len(),
    decreases txns.len(),
{
    if txns.len() > 0 {
        lemma_prefix_bound(
            env,
            ring_advance(env.sb, start, logged_footprint(env.sb, txns[0])),
            true,
            txns.skip(1),
        );
    }
}

/// Counting the transactions of a prefix one by one.
proof fn lemma_brings_home_step(
    env: PassEnv,
    start: int,
    tid: Tid,
    applied_any: bool,
    txns: Seq<LoggedTxn>,
    n: nat,
)
    requires
        txns.len() > 0,
        n < txns.len(),
    ensures
        brings_home(env, start, tid, applied_any, txns, n + 1) == after_writes(
            restores(env.records, tid, txns[0].caps),
            brings_home(
                env,
                ring_advance(env.sb, start, logged_footprint(env.sb, txns[0])),
                tid_next(tid),
                true,
                txns.skip(1),
                n,
            ),
        ),
{
    let head = txns.take(n as int + 1);
    assert(head.skip(1) =~= txns.skip(1).take(n as int));
    assert(head[0] == txns[0]);
    tid_steps_add(tid, n as int);
    let next = ring_advance(env.sb, start, logged_footprint(env.sb, txns[0]));
    assert(brings_home(env, start, tid, applied_any, txns, n + 1) =~= after_writes(
        restores(env.records, tid, txns[0].caps),
        brings_home(env, next, tid_next(tid), true, txns.skip(1), n),
    ));
}

proof fn lemma_passed(
    env: PassEnv,
    view: LogView,
    start: int,
    tid: Tid,
    applied_any: bool,
    txns: Seq<LoggedTxn>,
)
    requires
        env.sb.wf(),
        env.mapped >= env.sb.maxlen,
        in_ring(env.sb, start),
        live_log(view, env.sb, start, tid, txns),
        applied_any && txns.len() > 0 ==> !target_met(env, start),
    ensures
        passed(env, view, start, tid, applied_any, txns.len()) == brings_home(
            env,
            start,
            tid,
            applied_any,
            txns,
            prefix_len(env, start, applied_any, txns),
        ),
    decreases txns.len(),
{
    let sb = env.sb;
    let n = prefix_len(env, start, applied_any, txns);
    if txns.len() == 0 || touches(env.unpublished, txns[0].caps) {
        assert(txns.take(0) =~= Seq::empty());
        assert(all_restores(env.records, tid, txns.take(0)) =~= Seq::empty());
        tid_steps_add(tid, 0);
        let end = pass_end(env, 0 < txns.len(), start, tid, applied_any);
        assert(after_writes(Seq::empty(), end) =~= end);
        if txns.len() > 0 {
            let txn = txns[0];
            let i = choose|i: int|
                0 <= i < txn.caps.len() && env.unpublished.contains(#[trigger] txn.caps[i].blocknr);
            assert(env.unpublished != Set::<u64>::empty());
            committed_transaction_covers(
                sb,
                env.mapped,
                env.unpublished,
                view,
                start,
                tid,
                txn.caps,
                txn.revokes,
                txn.now,
            );
        }
    } else {
        let txn = txns[0];
        let rest = txns.skip(1);
        let next = ring_advance(sb, start, logged_footprint(sb, txn));
        let writes = restores(env.records, tid, txn.caps);
        ring_advance_is_modular(sb, start, logged_footprint(sb, txn));
        committed_transaction_covers(
            sb,
            env.mapped,
            env.unpublished,
            view,
            start,
            tid,
            txn.caps,
            txn.revokes,
            txn.now,
        );
        committed_transaction_replays(
            sb,
            env.mapped,
            env.records,
            view,
            start,
            tid,
            txn.caps,
            txn.revokes,
            txn.now,
        );
        let outcome = applied(sb, env.mapped, env.records, view, start, tid);
        assert(passed(env, view, start, tid, applied_any, txns.len()) == after_apply(
            env,
            view,
            tid,
            rest.len(),
            outcome,
        ));
        let k = prefix_len(env, next, true, rest);
        assert(n == k + 1);
        lemma_prefix_bound(env, next, true, rest);
        lemma_brings_home_step(env, start, tid, applied_any, txns, k);
        if rest.len() > 0 && target_met(env, next) {
            assert(k == 0);
            assert(rest.take(0) =~= Seq::empty());
            assert(all_restores(env.records, tid_next(tid), rest.take(0)) =~= Seq::empty());
            tid_steps_add(tid_next(tid), 0);
            let end = pass_end(env, true, next, tid_next(tid), true);
            assert(after_writes(Seq::empty(), end) =~= end);
        } else {
            lemma_passed(env, view, next, tid_next(tid), true, rest);
        }
    }
}

/// A checkpoint pass over a log that holds the committed transactions `txns`
/// brings a prefix of them home: it writes what they restore, oldest first,
/// and comes to the place right behind that prefix. So the tail never moves
/// past a transaction that is not home.
pub proof fn checkpoint_brings_a_prefix_home(
    env: PassEnv,
    view: LogView,
    tail: u32,
    tail_tid: Tid,
    txns: Seq<LoggedTxn>,
)
    requires
        env.sb.wf(),
        env.mapped >= env.sb.maxlen,
        in_ring(env.sb, tail as int),
        live_log(view, env.sb, tail as int, tail_tid, txns),
        txns.len() == txns_left(env.committed, tail_tid),
        !target_met(env, tail as int),
    ensures
        checkpointed(env, view, Some(tail), tail_tid) == brings_home(
            env,
            tail as int,
            tail_tid,
            false,
            txns,
            prefix_len(env, tail as int, false, txns),
        ),
        prefix_len(env, tail as int, false, txns) <= txns.len(),
{
    lemma_passed(env, view, tail as int, tail_tid, false, txns);
    lemma_prefix_bound(env, tail as int, false, txns);
}

/// A pass stops in front of the first transaction that touches a block whose
/// revoke is not published, when it has no target: all before it come home,
/// and neither it nor any behind it.
pub proof fn unpublished_revoke_stops_the_pass(
    env: PassEnv,
    start: int,
    applied_any: bool,
    txns: Seq<LoggedTxn>,
    k: int,
)
    requires
        env.target is None,
        0 <= k <= txns.len(),
        forall|i: int|
            0 <= i < k ==> !touches(env.unpublished, (#[trigger] txns[i]).caps),
        k < txns.len() ==> touches(env.unpublished, txns[k].caps),
    ensures
        prefix_len(env, start, applied_any, txns) == k,
    decreases k,
{
    if k > 0 {
        let rest = txns.skip(1);
        assert(!touches(env.unpublished, txns[0].caps));
        assert forall|i: int| 0 <= i < k - 1 implies !touches(
            env.unpublished,
            (#[trigger] rest[i]).caps,
        ) by {
            assert(rest[i] == txns[i + 1]);
        }
        if k < txns.len() {
            assert(rest[k - 1] == txns[k]);
        }
        unpublished_revoke_stops_the_pass(
            env,
            ring_advance(env.sb, start, logged_footprint(env.sb, txns[0])),
            true,
            rest,
            k - 1,
        );
    }
}

/// A pass without a target, and without revokes that wait for their commit,
/// brings every committed transaction home and leaves the log clean.
pub proof fn full_checkpoint_empties_the_log(
    env: PassEnv,
    view: LogView,
    tail: u32,
    tail_tid: Tid,
    txns: Seq<LoggedTxn>,
)
    requires
        env.sb.wf(),
        env.mapped >= env.sb.maxlen,
        in_ring(env.sb, tail as int),
        live_log(view, env.sb, tail as int, tail_tid, txns),
        txns.len() == txns_left(env.committed, tail_tid),
        txns.len() > 0,
        env.target is None,
        env.unpublished == Set::<u64>::empty(),
    ensures
        checkpointed(env, view, Some(tail), tail_tid) == (PassOutcome {
            writes: all_restores(env.records, tail_tid, txns),
            result: Ok(
                Some(
                    Retirement {
                        stopped_early: false,
                        log: log_end(env.sb, tail as int, txns) as u32,
                        tid: tid_next(env.committed),
                        committed_tid: env.committed,
                        head: env.head,
                    },
                ),
            ),
        }),
{
    let n = txns.len() as int;
    checkpoint_brings_a_prefix_home(env, view, tail, tail_tid, txns);
    assert forall|i: int| 0 <= i < n implies !touches(
        env.unpublished,
        (#[trigger] txns[i]).caps,
    ) by {}
    unpublished_revoke_stops_the_pass(env, tail as int, false, txns, n);
    assert(txns.take(n) =~= txns);
    tid_distance_leads_there(env.committed, tail_tid);
    assert(all_restores(env.records, tail_tid, txns) + Seq::<Image>::empty() =~= all_restores(
        env.records,
        tail_tid,
        txns,
    ));
}

/// How many log blocks these transactions take.
pub open spec fn total_footprint(sb: JournalSuperblock, txns: Seq<LoggedTxn>) -> nat
    decreases txns.len(),
{
    if txns.len() == 0 {
        0
    } else {
        logged_footprint(sb, txns[0]) + total_footprint(sb, txns.skip(1))
    }
}

/// The transactions end as many blocks on as they take.
proof fn lemma_log_end(sb: JournalSuperblock, start: int, txns: Seq<LoggedTxn>)
    ensures
        log_end(sb, start, txns) == ring_advance(sb, start, total_footprint(sb, txns)),
    decreases txns.len(),
{
    if txns.len() > 0 {
        let n = logged_footprint(sb, txns[0]);
        lemma_log_end(sb, ring_advance(sb, start, n), txns.skip(1));
        ring_advance_adds(sb, start, n, total_footprint(sb, txns.skip(1)));
    }
}

/// A log that agrees with another on the blocks of these transactions holds
/// them too.
proof fn lemma_live_log_kept(
    view: LogView,
    other: LogView,
    sb: JournalSuperblock,
    start: int,
    tid: Tid,
    txns: Seq<LoggedTxn>,
)
    requires
        sb.wf(),
        live_log(view, sb, start, tid, txns),
        forall|i: int|
            0 <= i < total_footprint(sb, txns) ==> other(
                #[trigger] ring_advance(sb, start, i as nat),
            ) == view(ring_advance(sb, start, i as nat)),
    ensures
        live_log(other, sb, start, tid, txns),
    decreases txns.len(),
{
    if txns.len() > 0 {
        let txn = txns[0];
        let n = logged_footprint(sb, txn);
        let next = ring_advance(sb, start, n);
        let blocks = transaction_log(
            sb.tag_layout,
            sb.csum_seed,
            tid,
            txn.caps,
            txn.revokes,
            txn.now,
        );
        transaction_log_has_footprint(
            sb.tag_layout,
            sb.csum_seed,
            tid,
            txn.caps,
            txn.revokes,
            txn.now,
        );
        assert forall|i: int| 0 <= i < blocks.len() implies other(
            #[trigger] ring_advance(sb, start, i as nat),
        ) == blocks[i] by {
            assert(view(ring_advance(sb, start, i as nat)) == blocks[i]);
        }
        assert forall|i: int| 0 <= i < total_footprint(sb, txns.skip(1)) implies other(
            #[trigger] ring_advance(sb, next, i as nat),
        ) == view(ring_advance(sb, next, i as nat)) by {
            ring_advance_adds(sb, start, n, i as nat);
            let at = ring_advance(sb, start, (n + i) as nat);
            assert(other(at) == view(at));
        }
        lemma_live_log_kept(view, other, sb, next, tid_next(tid), txns.skip(1));
    }
}

/// The log holds one transaction.
proof fn lemma_live_log_one(
    view: LogView,
    sb: JournalSuperblock,
    start: int,
    tid: Tid,
    txn: LoggedTxn,
)
    requires
        loggable(sb, txn.caps, txn.revokes),
        logged_footprint(sb, txn) <= ring_size(sb),
        holds(
            view,
            sb,
            start,
            transaction_log(sb.tag_layout, sb.csum_seed, tid, txn.caps, txn.revokes, txn.now),
        ),
    ensures
        live_log(view, sb, start, tid, seq![txn]),
{
    reveal_with_fuel(live_log, 2);
}

/// One more transaction behind those that the log holds.
proof fn lemma_live_log_push(
    view: LogView,
    sb: JournalSuperblock,
    start: int,
    tid: Tid,
    txns: Seq<LoggedTxn>,
    txn: LoggedTxn,
)
    requires
        live_log(view, sb, start, tid, txns),
        live_log(
            view,
            sb,
            log_end(sb, start, txns),
            tid_plus(tid, txns.len() as int),
            seq![txn],
        ),
    ensures
        live_log(view, sb, start, tid, txns.push(txn)),
    decreases txns.len(),
{
    if txns.len() == 0 {
        assert(txns.push(txn) =~= seq![txn]);
        tid_steps_add(tid, 0);
    } else {
        let rest = txns.skip(1);
        let next = ring_advance(sb, start, logged_footprint(sb, txns[0]));
        assert(txns.push(txn).skip(1) =~= rest.push(txn));
        tid_steps_add(tid, rest.len() as int);
        lemma_live_log_push(view, sb, next, tid_next(tid), rest, txn);
        assert(txns.push(txn)[0] == txns[0]);
    }
}

/// A commit that fits adds its transaction to those that the log holds, and
/// keeps them: what was committed before can still be brought home, and so can
/// what was committed now.
pub proof fn commit_extends_the_live_log(
    sb: JournalSuperblock,
    txn: Transaction,
    head: u32,
    tail: u32,
    tail_tid: Tid,
    view: LogView,
    txns: Seq<LoggedTxn>,
    now: CommitTime,
)
    requires
        sb.wf(),
        in_ring(sb, head as int),
        in_ring(sb, tail as int),
        commit_fault(sb, txn) is None,
        txn_footprint(sb, txn) <= ring_free(sb, head as int, Some(tail)),
        live_log(view, sb, tail as int, tail_tid, txns),
        head == log_end(sb, tail as int, txns),
        total_footprint(sb, txns) <= ring_used(sb, head as int, tail as int),
        txn.tid == tid_plus(tail_tid, txns.len() as int),
    ensures
        live_log(
            log_after(
                view,
                commit_ops(sb, txn.ordered@, body_log(sb, txn), head as int, false),
                txn.tid,
                sb.csum_seed,
                now,
            ),
            sb,
            tail as int,
            tail_tid,
            txns.push(LoggedTxn { caps: txn.images(), revokes: txn.revoked(), now }),
        ),
{
    let done = log_after(
        view,
        commit_ops(sb, txn.ordered@, body_log(sb, txn), head as int, false),
        txn.tid,
        sb.csum_seed,
        now,
    );
    let new = LoggedTxn { caps: txn.images(), revokes: txn.revoked(), now };
    vstd::arithmetic::div_mod::lemma_mod_bound(head - tail, ring_size(sb));
    commit_lays_down_the_transaction(sb, txn, head, false, view, now);
    assert forall|i: int| 0 <= i < total_footprint(sb, txns) implies done(
        #[trigger] ring_advance(sb, tail as int, i as nat),
    ) == view(ring_advance(sb, tail as int, i as nat)) by {
        let p = ring_advance(sb, tail as int, i as nat);
        if among(sb, head as int, txn_footprint(sb, txn), p) {
            let k = choose|k: int|
                0 <= k < txn_footprint(sb, txn) && #[trigger] ring_advance(
                    sb,
                    head as int,
                    k as nat,
                ) == p;
            fitting_commit_spares_the_tail(sb, head, tail, k as nat, i as nat);
        }
        assert(done(p) == view(p));
    }
    lemma_live_log_kept(view, done, sb, tail as int, tail_tid, txns);
    lemma_images_are_full(txn);
    lemma_live_log_one(done, sb, head as int, txn.tid, new);
    lemma_live_log_push(done, sb, tail as int, tail_tid, txns, new);
}

/// A commit to a clean log makes its transaction the one that the log holds.
pub proof fn first_commit_starts_the_live_log(
    sb: JournalSuperblock,
    txn: Transaction,
    head: u32,
    view: LogView,
    now: CommitTime,
)
    requires
        sb.wf(),
        in_ring(sb, head as int),
        commit_fault(sb, txn) is None,
        txn_footprint(sb, txn) <= ring_free(sb, head as int, None),
    ensures
        live_log(
            log_after(
                view,
                commit_ops(sb, txn.ordered@, body_log(sb, txn), head as int, true),
                txn.tid,
                sb.csum_seed,
                now,
            ),
            sb,
            head as int,
            txn.tid,
            seq![LoggedTxn { caps: txn.images(), revokes: txn.revoked(), now }],
        ),
{
    let new = LoggedTxn { caps: txn.images(), revokes: txn.revoked(), now };
    commit_lays_down_the_transaction(sb, txn, head, true, view, now);
    lemma_images_are_full(txn);
    let done = log_after(
        view,
        commit_ops(sb, txn.ordered@, body_log(sb, txn), head as int, true),
        txn.tid,
        sb.csum_seed,
        now,
    );
    lemma_live_log_one(done, sb, head as int, txn.tid, new);
}

} // verus!
