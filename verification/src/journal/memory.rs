//! What the journal remembers of the transactions in its log: the newest image
//! of each of their blocks, until it is home.

use vstd::prelude::*;

use crate::bytes::BLOCK_SIZE;
use crate::journal::apply::LogView;
use crate::journal::blockmap::{lemma_entry_in_map, occurs, place_of, retired, Dated};
use crate::journal::chain::CommitTime;
use crate::journal::checkpoint::{checkpointed, target_met, txns_left, PassEnv};
use crate::journal::descriptor::{image_of, Image};
use crate::journal::geometry::in_ring;
use crate::journal::prefix::{
    all_restores, checkpoint_brings_a_prefix_home, live_log, prefix_len, LoggedTxn,
};
use crate::journal::replay::{home_after, newest_write_stays, restores};
use crate::journal::revoke::suppressed;
use crate::journal::state::stashed;
use crate::journal::tid::{tid_geq, tid_next, tid_plus, tid_prev, tid_steps_add, Tid};
use crate::journal::transaction::Transaction;

verus! {

/// The images that the journal keeps of blocks that are not home yet.
pub type Images = Map<u64, Dated<Box<[u8; BLOCK_SIZE]>>>;

/// Whether one of these images is of the block.
pub open spec fn has_image(caps: Seq<Image>, blocknr: u64) -> bool {
    exists|k: int| 0 <= k < caps.len() && (#[trigger] caps[k]).blocknr == blocknr
}

/// The newest image that these transactions have of a block is the one that the
/// transaction `i` has at `k`.
pub open spec fn newest_at(txns: Seq<LoggedTxn>, blocknr: u64, i: int, k: int) -> bool {
    &&& 0 <= i < txns.len()
    &&& 0 <= k < txns[i].caps.len()
    &&& txns[i].caps[k].blocknr == blocknr
    &&& !has_image(txns[i].caps.skip(k + 1), blocknr)
    &&& forall|j: int| i < j < txns.len() ==> !has_image((#[trigger] txns[j]).caps, blocknr)
}

/// What is kept of a block is the newest image of it, dated by its transaction.
pub open spec fn remembered_at(
    images: Images,
    tid: Tid,
    txns: Seq<LoggedTxn>,
    blocknr: u64,
    i: int,
    k: int,
) -> bool {
    &&& newest_at(txns, blocknr, i, k)
    &&& images[blocknr].tid == tid_plus(tid, i)
    &&& (*images[blocknr].value)@ == txns[i].caps[k].bytes
}

/// The images kept are the newest ones of these transactions, of which the first
/// has the id `tid`: of each block that one of them captured, and of no other.
pub open spec fn remembers(images: Images, tid: Tid, txns: Seq<LoggedTxn>) -> bool {
    &&& forall|b: u64| #[trigger]
        images.dom().contains(b) ==> exists|i: int, k: int|
            remembered_at(images, tid, txns, b, i, k)
    &&& forall|i: int, b: u64|
        0 <= i < txns.len() && #[trigger] has_image(txns[i].caps, b) ==> images.dom().contains(b)
}

/// A journal with nothing in its log remembers nothing.
pub proof fn empty_log_has_no_memory(tid: Tid)
    ensures
        remembers(Map::empty(), tid, Seq::empty()),
{
}

/// A commit is remembered: with the images of its transaction put over them, the
/// images kept are the newest ones of the transactions with this one behind them.
pub proof fn commit_is_remembered(
    images: Images,
    tid: Tid,
    txns: Seq<LoggedTxn>,
    txn: Transaction,
    now: CommitTime,
)
    requires
        txn.wf(),
        remembers(images, tid, txns),
        txn.tid == tid_plus(tid, txns.len() as int),
    ensures
        remembers(
            stashed(images, txn),
            tid,
            txns.push(LoggedTxn { caps: txn.images(), revokes: txn.revoked(), now }),
        ),
{
    let new = LoggedTxn { caps: txn.images(), revokes: txn.revoked(), now };
    let all = txns.push(new);
    let after = stashed(images, txn);
    let entries = txn.captures.entries@;
    let n = txns.len() as int;
    assert forall|b: u64| has_image(new.caps, b) <==> #[trigger] txn.captures@.dom().contains(
        b,
    ) by {
        if has_image(new.caps, b) {
            let k = choose|k: int| 0 <= k < new.caps.len() && (#[trigger] new.caps[k]).blocknr == b;
            assert(new.caps[k] == image_of(entries[k]));
            lemma_entry_in_map(entries, k);
        }
        if txn.captures@.dom().contains(b) {
            assert(occurs(entries, b));
            let k = choose|k: int| place_of(entries, b, k);
            assert(new.caps[k].blocknr == b);
        }
    }
    assert forall|b: u64| #[trigger] after.dom().contains(b) implies exists|i: int, k: int|
        remembered_at(after, tid, all, b, i, k) by {
        if txn.captures@.dom().contains(b) {
            assert(occurs(entries, b));
            let k = choose|k: int| place_of(entries, b, k);
            lemma_entry_in_map(entries, k);
            assert(new.caps[k] == image_of(entries[k]));
            assert(all[n] == new);
            let behind = new.caps.skip(k + 1);
            assert forall|m: int| 0 <= m < behind.len() implies (#[trigger] behind[m]).blocknr
                != b by {
                assert(behind[m] == image_of(entries[k + 1 + m]));
                assert(entries[k].blocknr < entries[k + 1 + m].blocknr);
            }
            assert(remembered_at(after, tid, all, b, n, k));
        } else {
            assert(images.dom().contains(b));
            let (i, k) = choose|i: int, k: int| remembered_at(images, tid, txns, b, i, k);
            assert(all[i] == txns[i]);
            assert forall|j: int| i < j < all.len() implies !has_image(
                (#[trigger] all[j]).caps,
                b,
            ) by {
                if j < n {
                    assert(all[j] == txns[j]);
                }
            }
            assert(remembered_at(after, tid, all, b, i, k));
        }
    }
    assert forall|i: int, b: u64|
        0 <= i < all.len() && #[trigger] has_image(all[i].caps, b) implies after.dom().contains(
        b,
    ) by {
        if i < n {
            assert(all[i] == txns[i]);
        }
    }
}

/// A transaction whose images lack a block restores nothing of it.
proof fn lemma_restores_none(records: Map<u64, Dated<()>>, tid: Tid, caps: Seq<Image>, b: u64)
    requires
        !has_image(caps, b),
    ensures
        !has_image(restores(records, tid, caps), b),
    decreases caps.len(),
{
    if caps.len() > 0 {
        let rest = caps.skip(1);
        assert forall|k: int| 0 <= k < rest.len() implies (#[trigger] rest[k]).blocknr != b by {
            assert(caps[k + 1] == rest[k]);
        }
        assert(caps[0].blocknr != b);
        lemma_restores_none(records, tid, rest, b);
        let tail = restores(records, tid, rest);
        let whole = restores(records, tid, caps);
        assert forall|k: int| 0 <= k < whole.len() implies (#[trigger] whole[k]).blocknr != b by {
            if !suppressed(records, caps[0].blocknr, tid) && k > 0 {
                assert(whole[k] == tail[k - 1]);
            }
        }
    }
}

proof fn lemma_all_restores_none(
    records: Map<u64, Dated<()>>,
    tid: Tid,
    txns: Seq<LoggedTxn>,
    b: u64,
)
    requires
        forall|j: int| 0 <= j < txns.len() ==> !has_image((#[trigger] txns[j]).caps, b),
    ensures
        !has_image(all_restores(records, tid, txns), b),
    decreases txns.len(),
{
    if txns.len() > 0 {
        let rest = txns.skip(1);
        assert forall|j: int| 0 <= j < rest.len() implies !has_image(
            (#[trigger] rest[j]).caps,
            b,
        ) by {
            assert(rest[j] == txns[j + 1]);
        }
        assert(!has_image(txns[0].caps, b));
        lemma_restores_none(records, tid, txns[0].caps, b);
        lemma_all_restores_none(records, tid_next(tid), rest, b);
        let first = restores(records, tid, txns[0].caps);
        let others = all_restores(records, tid_next(tid), rest);
        let whole = first + others;
        assert forall|k: int| 0 <= k < whole.len() implies (#[trigger] whole[k]).blocknr != b by {
            if k < first.len() {
                assert(whole[k] == first[k]);
            } else {
                assert(whole[k] == others[k - first.len()]);
            }
        }
    }
}

/// Among these writes the one at `p` is the last one to its block.
pub open spec fn last_write_at(writes: Seq<Image>, image: Image, p: int) -> bool {
    &&& 0 <= p < writes.len()
    &&& writes[p] == image
    &&& forall|j: int| p < j < writes.len() ==> (#[trigger] writes[j]).blocknr != image.blocknr
}

proof fn lemma_restored_last(
    records: Map<u64, Dated<()>>,
    tid: Tid,
    caps: Seq<Image>,
    k: int,
) -> (p: int)
    requires
        0 <= k < caps.len(),
        !has_image(caps.skip(k + 1), caps[k].blocknr),
        !suppressed(records, caps[k].blocknr, tid),
    ensures
        last_write_at(restores(records, tid, caps), caps[k], p),
    decreases caps.len(),
{
    let rest = caps.skip(1);
    let tail = restores(records, tid, rest);
    let whole = restores(records, tid, caps);
    if k == 0 {
        lemma_restores_none(records, tid, rest, caps[0].blocknr);
        assert forall|j: int| 0 < j < whole.len() implies (#[trigger] whole[j]).blocknr
            != caps[0].blocknr by {
            assert(whole[j] == tail[j - 1]);
        }
        0
    } else {
        assert(rest.skip(k) =~= caps.skip(k + 1));
        let p = lemma_restored_last(records, tid, rest, k - 1);
        let shift: int = if suppressed(records, caps[0].blocknr, tid) {
            0
        } else {
            1
        };
        assert forall|j: int| p + shift < j < whole.len() implies (#[trigger] whole[j]).blocknr
            != caps[k].blocknr by {
            assert(whole[j] == tail[j - shift]);
        }
        p + shift
    }
}

proof fn lemma_all_restored_last(
    records: Map<u64, Dated<()>>,
    tid: Tid,
    txns: Seq<LoggedTxn>,
    b: u64,
    i: int,
    k: int,
) -> (p: int)
    requires
        newest_at(txns, b, i, k),
        !suppressed(records, b, tid_plus(tid, i)),
    ensures
        last_write_at(all_restores(records, tid, txns), txns[i].caps[k], p),
    decreases txns.len(),
{
    let rest = txns.skip(1);
    let first = restores(records, tid, txns[0].caps);
    let others = all_restores(records, tid_next(tid), rest);
    let whole = first + others;
    assert(whole == all_restores(records, tid, txns));
    tid_steps_add(tid, i - 1);
    if i == 0 {
        let p = lemma_restored_last(records, tid, txns[0].caps, k);
        assert forall|j: int| 0 <= j < rest.len() implies !has_image(
            (#[trigger] rest[j]).caps,
            b,
        ) by {
            assert(rest[j] == txns[j + 1]);
        }
        lemma_all_restores_none(records, tid_next(tid), rest, b);
        assert forall|j: int| p < j < whole.len() implies (#[trigger] whole[j]).blocknr != b by {
            if j < first.len() {
                assert(whole[j] == first[j]);
            } else {
                assert(whole[j] == others[j - first.len()]);
            }
        }
        p
    } else {
        assert(rest[i - 1] == txns[i]);
        assert forall|j: int| i - 1 < j < rest.len() implies !has_image(
            (#[trigger] rest[j]).caps,
            b,
        ) by {
            assert(rest[j] == txns[j + 1]);
        }
        let p = lemma_all_restored_last(records, tid_next(tid), rest, b, i - 1, k);
        let at = p + first.len();
        assert(whole[at] == others[p]);
        assert forall|j: int| at < j < whole.len() implies (#[trigger] whole[j]).blocknr != b by {
            assert(whole[j] == others[j - first.len()]);
        }
        at
    }
}

/// Of the transactions from `tid` on, those up to the one before the `n`th are
/// retired with it.
proof fn lemma_retired_ids(tid: Tid, n: int, i: int)
    requires
        0 <= i < 0x8000_0000,
        0 < n <= 0x8000_0000,
    ensures
        tid_geq(tid_prev(tid_plus(tid, n)), tid_plus(tid, i)) <==> i < n,
{
}

/// What a checkpoint drops is home: when a pass over the log brought a prefix of
/// its transactions home, each image that is then dropped stands at home, unless
/// a revoke suppresses it. The transactions `pending` left the running state and
/// are not in the log yet.
pub proof fn dropped_images_are_home(
    env: PassEnv,
    view: LogView,
    tail: u32,
    tail_tid: Tid,
    txns: Seq<LoggedTxn>,
    pending: Seq<LoggedTxn>,
    images: Images,
    disk: Map<u64, Seq<u8>>,
    blocknr: u64,
)
    requires
        env.sb.wf(),
        env.mapped >= env.sb.maxlen,
        in_ring(env.sb, tail as int),
        live_log(view, env.sb, tail as int, tail_tid, txns),
        txns.len() == txns_left(env.committed, tail_tid),
        txns.len() + pending.len() <= 0x8000_0000,
        !target_met(env, tail as int),
        remembers(images, tail_tid, txns + pending),
        checkpointed(env, view, Some(tail), tail_tid).result matches Ok(Some(retirement))
            && !retired(images, retirement.through()).dom().contains(blocknr),
        images.dom().contains(blocknr),
        !suppressed(env.records, blocknr, images[blocknr].tid),
    ensures
        ({
            let home = home_after(disk, checkpointed(env, view, Some(tail), tail_tid).writes);
            &&& home.dom().contains(blocknr)
            &&& home[blocknr] == (*images[blocknr].value)@
        }),
{
    let n = prefix_len(env, tail as int, false, txns) as int;
    let outcome = checkpointed(env, view, Some(tail), tail_tid);
    checkpoint_brings_a_prefix_home(env, view, tail, tail_tid, txns);
    let all = txns + pending;
    let (i, k) = choose|i: int, k: int| remembered_at(images, tail_tid, all, blocknr, i, k);
    assert(n > 0);
    lemma_retired_ids(tail_tid, n, i);
    assert(i < n);
    let home_txns = txns.take(n);
    assert(home_txns[i] == all[i]);
    assert forall|j: int| i < j < home_txns.len() implies !has_image(
        (#[trigger] home_txns[j]).caps,
        blocknr,
    ) by {
        assert(home_txns[j] == all[j]);
    }
    let p = lemma_all_restored_last(env.records, tail_tid, home_txns, blocknr, i, k);
    assert(outcome.writes =~= all_restores(env.records, tail_tid, home_txns));
    newest_write_stays(disk, outcome.writes, p);
}

/// What a checkpoint does not drop is still the newest: with the images of the
/// first `n` transactions dropped, the images kept are the newest ones of those
/// that are left.
pub proof fn checkpoint_keeps_the_memory(images: Images, tid: Tid, txns: Seq<LoggedTxn>, n: int)
    requires
        remembers(images, tid, txns),
        0 < n <= txns.len() <= 0x8000_0000,
    ensures
        remembers(retired(images, tid_prev(tid_plus(tid, n))), tid_plus(tid, n), txns.skip(n)),
{
    let through = tid_prev(tid_plus(tid, n));
    let kept = retired(images, through);
    let rest = txns.skip(n);
    assert forall|b: u64| #[trigger] kept.dom().contains(b) implies exists|i: int, k: int|
        remembered_at(kept, tid_plus(tid, n), rest, b, i, k) by {
        let (i, k) = choose|i: int, k: int| remembered_at(images, tid, txns, b, i, k);
        lemma_retired_ids(tid, n, i);
        assert(rest[i - n] == txns[i]);
        assert forall|j: int| i - n < j < rest.len() implies !has_image(
            (#[trigger] rest[j]).caps,
            b,
        ) by {
            assert(rest[j] == txns[j + n]);
        }
        assert(remembered_at(kept, tid_plus(tid, n), rest, b, i - n, k));
    }
    assert forall|i: int, b: u64|
        0 <= i < rest.len() && #[trigger] has_image(rest[i].caps, b) implies kept.dom().contains(
        b,
    ) by {
        assert(rest[i] == txns[i + n]);
        assert(has_image(txns[i + n].caps, b));
        assert(images.dom().contains(b));
        let (m, k) = choose|m: int, k: int| remembered_at(images, tid, txns, b, m, k);
        lemma_retired_ids(tid, n, m);
        assert(m >= i + n) by {
            if m < i + n {
                assert(!has_image(txns[i + n].caps, b));
            }
        }
    }
}

} // verus!
