//! How far a checkpoint pass goes that is to free a part of the log only.

use vstd::prelude::*;

use crate::error::Error;
use crate::journal::apply::LogView;
use crate::journal::blockmap::Dated;
use crate::journal::checkpoint::{checkpointed, target_met, txns_left, PassEnv, Retirement};
use crate::journal::descriptor::Image;
use crate::journal::geometry::{
    in_ring, ring_advance, ring_advance_is_modular, ring_free, ring_size, JournalGeometry,
};
use crate::journal::prefix::{
    all_restores, checkpoint_brings_a_prefix_home, live_log, log_end, logged_footprint, prefix_len,
    LoggedTxn,
};
use crate::journal::laws::ahead;
use crate::journal::replay::{restores, touches};
use crate::journal::revoke::suppressed;
use crate::journal::tid::{tid_distance_leads_there, tid_next, tid_plus, Tid};

verus! {

/// Where the transaction number `k` of these begins.
pub open spec fn begins(env: PassEnv, start: int, txns: Seq<LoggedTxn>, k: int) -> int {
    log_end(env.sb, start, txns.take(k))
}

/// Whether `wanted` blocks of the log are free once the tail is at the transaction
/// number `k` of these.
pub open spec fn frees_enough(
    env: PassEnv,
    start: int,
    txns: Seq<LoggedTxn>,
    wanted: u32,
    k: int,
) -> bool {
    ring_free(env.sb, env.head as int, Some(begins(env, start, txns, k) as u32)) >= wanted
}

proof fn lemma_begins(env: PassEnv, start: int, txns: Seq<LoggedTxn>, k: int)
    requires
        0 < k <= txns.len(),
    ensures
        begins(env, start, txns, k) == begins(
            env,
            ring_advance(env.sb, start, logged_footprint(env.sb, txns[0])),
            txns.skip(1),
            k - 1,
        ),
{
    assert(txns.take(k).skip(1) =~= txns.skip(1).take(k - 1));
    assert(txns.take(k)[0] == txns[0]);
}

proof fn lemma_prefix_is_least(
    env: PassEnv,
    start: int,
    applied_any: bool,
    txns: Seq<LoggedTxn>,
    wanted: u32,
)
    requires
        env.sb.wf(),
        in_ring(env.sb, start),
        env.target == Some(wanted),
        forall|i: int| 0 <= i < txns.len() ==> !touches(env.unpublished, (#[trigger] txns[i]).caps),
    ensures
        ({
            let n = prefix_len(env, start, applied_any, txns) as int;
            &&& n <= txns.len()
            &&& !applied_any && txns.len() > 0 ==> n > 0
            &&& n < txns.len() ==> frees_enough(env, start, txns, wanted, n)
            &&& forall|k: int|
                (if applied_any {
                    0
                } else {
                    1int
                }) <= k < n ==> !#[trigger] frees_enough(env, start, txns, wanted, k)
        }),
    decreases txns.len(),
{
    let n = prefix_len(env, start, applied_any, txns) as int;
    assert(txns.take(0) =~= Seq::empty());
    assert(begins(env, start, txns, 0) == start);
    if n > 0 {
        let f = logged_footprint(env.sb, txns[0]);
        let next = ring_advance(env.sb, start, f);
        let rest = txns.skip(1);
        assert(!touches(env.unpublished, txns[0].caps));
        assert forall|i: int| 0 <= i < rest.len() implies !touches(
            env.unpublished,
            (#[trigger] rest[i]).caps,
        ) by {
            assert(rest[i] == txns[i + 1]);
        }
        ring_advance_is_modular(env.sb, start, f);
        lemma_prefix_is_least(env, next, true, rest, wanted);
        if n < txns.len() {
            lemma_begins(env, start, txns, n);
        }
        assert forall|k: int|
            (if applied_any {
                0
            } else {
                1int
            }) <= k < n implies !#[trigger] frees_enough(env, start, txns, wanted, k) by {
            if k > 0 {
                lemma_begins(env, start, txns, k);
                assert(!frees_enough(env, next, rest, wanted, k - 1));
            }
        }
    } else if txns.len() > 0 {
        assert(!touches(env.unpublished, txns[0].caps));
    }
}

/// A pass that is to free `wanted` blocks of a log that holds the committed
/// transactions `txns`, none of which has to wait for a revoke, never fails. It is
/// idle only where so many blocks are free already. Otherwise it brings
/// transactions home, oldest first, until so many are free or all of them are home,
/// and no more of them than that takes.
pub proof fn targeted_checkpoint_frees_enough(
    env: PassEnv,
    view: LogView,
    tail: u32,
    tail_tid: Tid,
    txns: Seq<LoggedTxn>,
    wanted: u32,
)
    requires
        env.sb.wf(),
        env.mapped >= env.sb.maxlen,
        in_ring(env.sb, tail as int),
        live_log(view, env.sb, tail as int, tail_tid, txns),
        txns.len() == txns_left(env.committed, tail_tid),
        txns.len() > 0,
        env.target == Some(wanted),
        forall|i: int| 0 <= i < txns.len() ==> !touches(env.unpublished, (#[trigger] txns[i]).caps),
    ensures
        ({
            let pass = checkpointed(env, view, Some(tail), tail_tid);
            &&& pass.result is Ok
            &&& pass.result->Ok_0 is None <==> ring_free(env.sb, env.head as int, Some(tail))
                >= wanted
            &&& pass.result->Ok_0 is None ==> pass.writes.len() == 0
            &&& pass.result matches Ok(Some(end)) ==> {
                &&& end.head == env.head
                &&& end.committed_tid == env.committed
                &&& end.stopped_early ==> ring_free(env.sb, env.head as int, Some(end.log))
                    >= wanted
                &&& !end.stopped_early ==> end.tid == tid_next(env.committed) && pass.writes
                    == all_restores(env.records, tail_tid, txns)
                &&& exists|n: int|
                    {
                        &&& 0 < n <= txns.len()
                        &&& end.stopped_early == (n < txns.len())
                        &&& end.tid == tid_plus(tail_tid, n)
                        &&& end.log == #[trigger] begins(env, tail as int, txns, n) as u32
                        &&& pass.writes == all_restores(env.records, tail_tid, txns.take(n))
                        &&& forall|k: int|
                            0 < k < n ==> !#[trigger] frees_enough(
                                env,
                                tail as int,
                                txns,
                                wanted,
                                k,
                            )
                    }
            }
        }),
{
    if ring_free(env.sb, env.head as int, Some(tail)) < wanted {
        checkpoint_brings_a_prefix_home(env, view, tail, tail_tid, txns);
        lemma_prefix_is_least(env, tail as int, false, txns, wanted);
        let n = prefix_len(env, tail as int, false, txns) as int;
        let pass = checkpointed(env, view, Some(tail), tail_tid);
        assert(pass.writes =~= all_restores(env.records, tail_tid, txns.take(n)));
        assert(pass.result->Ok_0->0.log == begins(env, tail as int, txns, n) as u32);
        if n < txns.len() {
            assert(frees_enough(env, tail as int, txns, wanted, n));
        } else {
            assert(txns.take(n) =~= txns);
            tid_distance_leads_there(env.committed, tail_tid);
        }
    }
}

proof fn lemma_prefix_stops(
    env: PassEnv,
    start: int,
    applied_any: bool,
    txns: Seq<LoggedTxn>,
    k: int,
)
    requires
        0 <= k < txns.len(),
        touches(env.unpublished, txns[k].caps),
    ensures
        prefix_len(env, start, applied_any, txns) <= k,
    decreases k,
{
    if k > 0 {
        assert(txns.skip(1)[k - 1] == txns[k]);
        lemma_prefix_stops(
            env,
            ring_advance(env.sb, start, logged_footprint(env.sb, txns[0])),
            true,
            txns.skip(1),
            k - 1,
        );
    }
}

/// A pass brings home no transaction that has a block which a transaction that is
/// not committed has revoked, nor any behind it, whatever it is to free; and the tail
/// stays in front of it.
pub proof fn revoked_blocks_hold_the_pass_back(
    env: PassEnv,
    view: LogView,
    tail: u32,
    tail_tid: Tid,
    txns: Seq<LoggedTxn>,
    k: int,
    j: int,
)
    requires
        env.sb.wf(),
        env.mapped >= env.sb.maxlen,
        in_ring(env.sb, tail as int),
        live_log(view, env.sb, tail as int, tail_tid, txns),
        txns.len() == txns_left(env.committed, tail_tid),
        0 <= k < txns.len(),
        0 <= j < txns[k].caps.len(),
        env.unpublished.contains(txns[k].caps[j].blocknr),
    ensures
        ({
            let pass = checkpointed(env, view, Some(tail), tail_tid);
            &&& pass.result is Ok
            &&& exists|n: int|
                {
                    &&& 0 <= n <= k
                    &&& pass.writes == all_restores(env.records, tail_tid, txns.take(n))
                    &&& n == 0 <==> pass.result->Ok_0 is None
                    &&& pass.result matches Ok(Some(end)) ==> {
                        &&& end.stopped_early
                        &&& end.tid == tid_plus(tail_tid, n)
                        &&& end.log == #[trigger] begins(env, tail as int, txns, n) as u32
                    }
                }
        }),
{
    let pass = checkpointed(env, view, Some(tail), tail_tid);
    let none = all_restores(env.records, tail_tid, txns.take(0));
    assert(none =~= Seq::empty());
    let first = begins(env, tail as int, txns, 0);
    if !target_met(env, tail as int) {
        checkpoint_brings_a_prefix_home(env, view, tail, tail_tid, txns);
        assert(touches(env.unpublished, txns[k].caps));
        lemma_prefix_stops(env, tail as int, false, txns, k);
        let n = prefix_len(env, tail as int, false, txns) as int;
        assert(pass.writes =~= all_restores(env.records, tail_tid, txns.take(n)));
        let at = begins(env, tail as int, txns, n);
    } else {
        assert(pass.writes =~= none);
    }
}

/// What a transaction restores is all that it captured, but for the blocks that it
/// or a later transaction has revoked.
pub proof fn all_but_revoked_images_are_restored(
    records: Map<u64, Dated<()>>,
    tid: Tid,
    caps: Seq<Image>,
    image: Image,
)
    ensures
        restores(records, tid, caps).contains(image) <==> caps.contains(image) && !(
        records.dom().contains(image.blocknr) && ahead(records[image.blocknr].tid, tid)
            < 0x8000_0000),
    decreases caps.len(),
{
    if caps.len() > 0 {
        let rest = caps.skip(1);
        let later = restores(records, tid, rest);
        let all = restores(records, tid, caps);
        all_but_revoked_images_are_restored(records, tid, rest, image);
        assert(caps.contains(image) <==> caps[0] == image || rest.contains(image)) by {
            if caps.contains(image) && caps[0] != image {
                let i = choose|i: int| 0 <= i < caps.len() && caps[i] == image;
                assert(rest[i - 1] == image);
            }
            if rest.contains(image) {
                let i = choose|i: int| 0 <= i < rest.len() && rest[i] == image;
                assert(caps[i + 1] == image);
            }
        }
        if !suppressed(records, caps[0].blocknr, tid) {
            assert(all.contains(image) <==> caps[0] == image || later.contains(image)) by {
                if all.contains(image) && caps[0] != image {
                    let i = choose|i: int| 0 <= i < all.len() && all[i] == image;
                    assert(later[i - 1] == image);
                }
                if later.contains(image) {
                    let i = choose|i: int| 0 <= i < later.len() && later[i] == image;
                    assert(all[i + 1] == image);
                }
                if caps[0] == image {
                    assert(all[0] == image);
                }
            }
        }
    }
}

/// A pass over a clean log, or one over a log without a committed transaction, has
/// nothing to do.
pub proof fn clean_log_needs_no_checkpoint(env: PassEnv, view: LogView, tail_tid: Tid, tail: u32)
    ensures
        checkpointed(env, view, None, tail_tid).result == Ok::<
            Option<Retirement>,
            Error,
        >(None),
        checkpointed(env, view, None, tail_tid).writes.len() == 0,
        txns_left(env.committed, tail_tid) == 0 ==> checkpointed(
            env,
            view,
            Some(tail),
            tail_tid,
        ).writes.len() == 0 && checkpointed(env, view, Some(tail), tail_tid).result == Ok::<
            Option<Retirement>,
            Error,
        >(None),
{
}

/// The log blocks that are not free are those from the tail up to the head: at
/// least one, and all of them where the head has come round to the tail. All are
/// free where the log is clean.
pub proof fn free_blocks_are_outside_of_the_log(
    geo: JournalGeometry,
    head: u32,
    tail: Option<u32>,
    free: u32,
)
    requires
        geo.wf(),
        in_ring(geo.superblock, head as int),
        tail matches Some(tail) ==> in_ring(geo.superblock, tail as int),
        call_ensures(JournalGeometry::free_log_blocks, (&geo, head, tail), free),
    ensures
        tail is None ==> free == geo.superblock.maxlen - geo.superblock.first,
        tail matches Some(tail) ==> {
            let used = geo.superblock.maxlen - geo.superblock.first - free;
            &&& 0 < used
            &&& ring_advance(geo.superblock, tail as int, used as nat) == head
            &&& head > tail ==> used == head - tail
            &&& head <= tail ==> free == tail - head
        },
{
    if let Some(tail) = tail {
        let sb = geo.superblock;
        let m = ring_size(sb);
        let d = head - tail;
        if d > 0 {
            vstd::arithmetic::div_mod::lemma_small_mod(d as nat, m as nat);
        } else if d < 0 {
            vstd::arithmetic::div_mod::lemma_fundamental_div_mod_converse(d, m, -1, d + m);
        }
        let used = m - free;
        ring_advance_is_modular(sb, tail as int, used as nat);
        let at = tail - sb.first + used;
        if at >= m {
            vstd::arithmetic::div_mod::lemma_fundamental_div_mod_converse(at, m, 1, at - m);
        } else {
            vstd::arithmetic::div_mod::lemma_small_mod(at as nat, m as nat);
        }
    }
}

/// The block after a log block is the next one, and after the last one the first.
/// To advance is to do so again and again.
pub proof fn log_blocks_follow_each_other(
    geo: JournalGeometry,
    log: u32,
    next: u32,
    n: u32,
    to: u32,
)
    requires
        geo.wf(),
        in_ring(geo.superblock, log as int),
        call_ensures(JournalGeometry::next_log_block, (&geo, log), next),
        call_ensures(JournalGeometry::advance, (&geo, log, n), to),
    ensures
        geo.superblock.first <= next < geo.superblock.maxlen,
        next == log + 1 || log + 1 == geo.superblock.maxlen && next == geo.superblock.first,
        n == 0 ==> to == log,
        n == 1 ==> to == next,
        n < geo.superblock.maxlen - log ==> to == log + n,
        geo.superblock.maxlen - log <= n < geo.superblock.maxlen - geo.superblock.first ==> to
            == log + n - (geo.superblock.maxlen - geo.superblock.first),
{
    let sb = geo.superblock;
    let m = ring_size(sb);
    ring_advance_is_modular(sb, log as int, n as nat);
    let at = log - sb.first + n;
    if at < m {
        vstd::arithmetic::div_mod::lemma_small_mod(at as nat, m as nat);
    } else if at < 2 * m {
        vstd::arithmetic::div_mod::lemma_fundamental_div_mod_converse(at, m, 1, at - m);
    }
}

} // verus!
