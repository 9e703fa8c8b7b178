//! Walks over the log arrive: fed with the log blocks that they ask for, they end
//! after a bounded number of steps, whatever the log holds, and have done then what
//! they were to do.

use vstd::prelude::*;

use crate::bytes::BLOCK_SIZE;
use crate::error::Error;
use crate::journal::apply::{
    applied, ApplyNext, ApplyOutcome, ApplyStep, ApplyWalk, CoverNext, CoverScan, HomeWrite,
    LogView,
};
use crate::journal::blockmap::Dated;
use crate::journal::chain::{footprint, transaction_log, CommitTime};
use crate::journal::checkpoint::{
    txns_left, CheckpointPass, PassNext, PassOutcome, PassStage, PassStep, Retirement,
};
use crate::journal::descriptor::Image;
use crate::journal::geometry::{in_ring, ring_advance, ring_size, JournalGeometry};
use crate::journal::replay::{
    committed_transaction_replays, holds, home_after, lemma_last_write, loggable,
    newest_write_stays, other_blocks_stay, restores,
};
use crate::journal::revoke::suppressed;
use crate::journal::tag::TAG_UUID_BYTES;
use crate::journal::tid::Tid;

verus! {

/// The image that a write brings home.
pub open spec fn written_image(write: Option<HomeWrite>) -> Seq<Image> {
    match write {
        Some(write) => seq![Image { blocknr: write.blocknr, bytes: write.bytes@ }],
        None => Seq::empty(),
    }
}

/// As many steps as a walk over one transaction makes at most.
pub open spec fn walk_limit(geo: JournalGeometry) -> nat {
    (geo.superblock.maxlen + BLOCK_SIZE + TAG_UUID_BYTES + 1) as nat
}

/// A walk took the log block that it had asked for, by this step.
pub open spec fn walk_took(
    walk: ApplyWalk,
    geo: JournalGeometry,
    records: Map<u64, Dated<()>>,
    view: LogView,
    step: ApplyStep,
) -> bool {
    let mapped = geo.block_map@.len();
    &&& walk.wf(geo)
    &&& step.next.wf(geo)
    &&& step.next matches ApplyNext::Read(next) ==> walk.consumed < next.consumed
    &&& walk.outcome(geo.superblock, mapped, records, view) == step.outcome(
        geo.superblock,
        mapped,
        records,
        view,
    )
}

/// The steps of a walk, each from where the one before it led to.
pub open spec fn walk_runs(
    geo: JournalGeometry,
    records: Map<u64, Dated<()>>,
    view: LogView,
    walks: Seq<ApplyWalk>,
    steps: Seq<ApplyStep>,
) -> bool {
    &&& walks.len() == steps.len()
    &&& walks.len() > 0
    &&& forall|i: int|
        0 <= i < walks.len() ==> walk_took(walks[i], geo, records, view, #[trigger] steps[i])
    &&& forall|i: int|
        0 <= i < walks.len() - 1 ==> (#[trigger] steps[i]).next == ApplyNext::Read(walks[i + 1])
}

/// The blocks that steps write home.
pub open spec fn walk_writes(steps: Seq<ApplyStep>) -> Seq<Image>
    decreases steps.len(),
{
    if steps.len() == 0 {
        Seq::empty()
    } else {
        written_image(steps[0].write) + walk_writes(steps.skip(1))
    }
}

/// How a walk ended, if it did.
pub open spec fn walk_result(next: ApplyNext) -> Result<u32, Error> {
    match next {
        ApplyNext::Done(log) => Ok(log),
        ApplyNext::Failed(e) => Err(e),
        ApplyNext::Read(_) => arbitrary(),
    }
}

proof fn lemma_walk_counts(
    geo: JournalGeometry,
    records: Map<u64, Dated<()>>,
    view: LogView,
    walks: Seq<ApplyWalk>,
    steps: Seq<ApplyStep>,
    i: int,
)
    requires
        walk_runs(geo, records, view, walks, steps),
        0 <= i < walks.len(),
    ensures
        walks[i].consumed >= i,
    decreases i,
{
    if i > 0 {
        lemma_walk_counts(geo, records, view, walks, steps, i - 1);
        assert(walk_took(walks[i - 1], geo, records, view, steps[i - 1]));
        assert(steps[i - 1].next == ApplyNext::Read(walks[i]));
    }
}

/// A walk ends, whatever the log holds: it makes no more steps than a bound that the
/// size of the log gives. When it has ended, it has written and returned what it
/// was to.
pub proof fn apply_walk_arrives(
    geo: JournalGeometry,
    records: Map<u64, Dated<()>>,
    view: LogView,
    walks: Seq<ApplyWalk>,
    steps: Seq<ApplyStep>,
)
    requires
        walk_runs(geo, records, view, walks, steps),
    ensures
        steps.len() <= walk_limit(geo),
        !(steps.last().next is Read) ==> walks[0].outcome(
            geo.superblock,
            geo.block_map@.len(),
            records,
            view,
        ) == (ApplyOutcome {
            writes: walk_writes(steps),
            result: walk_result(steps.last().next),
        }),
    decreases steps.len(),
{
    let last = walks.len() - 1;
    lemma_walk_counts(geo, records, view, walks, steps, last);
    assert(walk_took(walks[last], geo, records, view, steps[last]));
    let mapped = geo.block_map@.len();
    assert(walk_took(walks[0], geo, records, view, steps[0]));
    if !(steps.last().next is Read) {
        if steps.len() == 1 {
            assert(steps.skip(1) =~= Seq::empty());
            assert(walk_writes(steps) =~= written_image(steps[0].write));
        } else {
            let rest_walks = walks.skip(1);
            let rest_steps = steps.skip(1);
            assert forall|i: int| 0 <= i < rest_walks.len() implies walk_took(
                rest_walks[i],
                geo,
                records,
                view,
                #[trigger] rest_steps[i],
            ) by {
                assert(walk_took(walks[i + 1], geo, records, view, steps[i + 1]));
            }
            assert forall|i: int| 0 <= i < rest_walks.len() - 1 implies (
            #[trigger] rest_steps[i]).next == ApplyNext::Read(rest_walks[i + 1]) by {
                assert(steps[i + 1].next == ApplyNext::Read(walks[i + 2]));
            }
            apply_walk_arrives(geo, records, view, rest_walks, rest_steps);
            assert(steps[0].next == ApplyNext::Read(walks[1]));
            assert(rest_walks[0] == walks[1]);
        }
        assert(walks[0].outcome(geo.superblock, mapped, records, view) =~= ApplyOutcome {
            writes: walk_writes(steps),
            result: walk_result(steps.last().next),
        });
    }
}

proof fn lemma_all_restored(records: Map<u64, Dated<()>>, tid: Tid, caps: Seq<Image>)
    requires
        forall|i: int|
            0 <= i < caps.len() ==> !suppressed(records, (#[trigger] caps[i]).blocknr, tid),
    ensures
        restores(records, tid, caps) == caps,
    decreases caps.len(),
{
    if caps.len() > 0 {
        let rest = caps.skip(1);
        assert forall|i: int| 0 <= i < rest.len() implies !suppressed(
            records,
            (#[trigger] rest[i]).blocknr,
            tid,
        ) by {
            assert(rest[i] == caps[i + 1]);
        }
        assert(!suppressed(records, caps[0].blocknr, tid));
        lemma_all_restored(records, tid, rest);
        assert(seq![caps[0]] + rest =~= caps);
    }
}

/// Applying a committed transaction that no revoke suppresses ends behind its
/// blocks, with every captured block at home as it was captured, and every other
/// block as it was.
pub proof fn committed_transaction_is_applied(
    geo: JournalGeometry,
    records: Map<u64, Dated<()>>,
    view: LogView,
    start: int,
    tid: Tid,
    caps: Seq<Image>,
    revokes: Seq<u64>,
    now: CommitTime,
    walks: Seq<ApplyWalk>,
    steps: Seq<ApplyStep>,
    disk: Map<u64, Seq<u8>>,
)
    requires
        geo.wf(),
        in_ring(geo.superblock, start),
        loggable(geo.superblock, caps, revokes),
        footprint(geo.superblock.tag_layout, caps.len(), revokes.len()) <= ring_size(
            geo.superblock,
        ),
        holds(
            view,
            geo.superblock,
            start,
            transaction_log(
                geo.superblock.tag_layout,
                geo.superblock.csum_seed,
                tid,
                caps,
                revokes,
                now,
            ),
        ),
        forall|i: int|
            0 <= i < caps.len() ==> !suppressed(records, (#[trigger] caps[i]).blocknr, tid),
        forall|i: int, j: int|
            0 <= i < j < caps.len() ==> (#[trigger] caps[i]).blocknr != (
            #[trigger] caps[j]).blocknr,
        walk_runs(geo, records, view, walks, steps),
        walks[0].outcome(geo.superblock, geo.block_map@.len(), records, view) == applied(
            geo.superblock,
            geo.block_map@.len(),
            records,
            view,
            start,
            tid,
        ),
        !(steps.last().next is Read),
    ensures
        steps.last().next == ApplyNext::Done(
            ring_advance(
                geo.superblock,
                start,
                footprint(geo.superblock.tag_layout, caps.len(), revokes.len()),
            ) as u32,
        ),
        forall|i: int|
            0 <= i < caps.len() ==> {
                let home = home_after(disk, walk_writes(steps));
                &&& home.dom().contains((#[trigger] caps[i]).blocknr)
                &&& home[caps[i].blocknr] == caps[i].bytes
            },
        forall|b: u64|
            (forall|i: int| 0 <= i < caps.len() ==> (#[trigger] caps[i]).blocknr != b) ==> {
                &&& #[trigger] home_after(disk, walk_writes(steps)).dom().contains(b)
                    == disk.dom().contains(b)
                &&& disk.dom().contains(b) ==> home_after(disk, walk_writes(steps))[b] == disk[b]
            },
{
    apply_walk_arrives(geo, records, view, walks, steps);
    committed_transaction_replays(
        geo.superblock,
        geo.block_map@.len(),
        records,
        view,
        start,
        tid,
        caps,
        revokes,
        now,
    );
    lemma_all_restored(records, tid, caps);
    assert(walk_writes(steps) == caps);
    assert forall|i: int| 0 <= i < caps.len() implies {
        let home = home_after(disk, walk_writes(steps));
        &&& home.dom().contains((#[trigger] caps[i]).blocknr)
        &&& home[caps[i].blocknr] == caps[i].bytes
    } by {
        newest_write_stays(disk, caps, i);
    }
    assert forall|b: u64|
        (forall|i: int| 0 <= i < caps.len() ==> (#[trigger] caps[i]).blocknr != b) implies {
        &&& #[trigger] home_after(disk, walk_writes(steps)).dom().contains(b)
            == disk.dom().contains(b)
        &&& disk.dom().contains(b) ==> home_after(disk, walk_writes(steps))[b] == disk[b]
    } by {
        other_blocks_stay(disk, caps, b);
    }
}

/// Applying a transaction once more ends as it did before and leaves each block that
/// it writes with the same bytes, whatever became of the blocks in between.
pub proof fn applying_again_gives_the_same(
    geo: JournalGeometry,
    records: Map<u64, Dated<()>>,
    view: LogView,
    start: int,
    tid: Tid,
    walks: Seq<ApplyWalk>,
    steps: Seq<ApplyStep>,
    disk: Map<u64, Seq<u8>>,
    more_walks: Seq<ApplyWalk>,
    more_steps: Seq<ApplyStep>,
    later_disk: Map<u64, Seq<u8>>,
)
    requires
        walk_runs(geo, records, view, walks, steps),
        walk_runs(geo, records, view, more_walks, more_steps),
        walks[0].outcome(geo.superblock, geo.block_map@.len(), records, view) == applied(
            geo.superblock,
            geo.block_map@.len(),
            records,
            view,
            start,
            tid,
        ),
        more_walks[0].outcome(geo.superblock, geo.block_map@.len(), records, view) == applied(
            geo.superblock,
            geo.block_map@.len(),
            records,
            view,
            start,
            tid,
        ),
        !(steps.last().next is Read),
        !(more_steps.last().next is Read),
    ensures
        walk_result(more_steps.last().next) == walk_result(steps.last().next),
        walk_writes(more_steps) == walk_writes(steps),
        forall|i: int|
            0 <= i < walk_writes(steps).len() ==> {
                let b = (#[trigger] walk_writes(steps)[i]).blocknr;
                &&& home_after(later_disk, walk_writes(more_steps)).dom().contains(b)
                &&& home_after(later_disk, walk_writes(more_steps))[b] == home_after(
                    disk,
                    walk_writes(steps),
                )[b]
            },
{
    apply_walk_arrives(geo, records, view, walks, steps);
    apply_walk_arrives(geo, records, view, more_walks, more_steps);
    let writes = walk_writes(steps);
    assert forall|i: int| 0 <= i < writes.len() implies {
        let b = (#[trigger] writes[i]).blocknr;
        &&& home_after(later_disk, writes).dom().contains(b)
        &&& home_after(later_disk, writes)[b] == home_after(disk, writes)[b]
    } by {
        match lemma_last_write(writes, writes[i].blocknr) {
            Some(k) => {
                newest_write_stays(disk, writes, k);
                newest_write_stays(later_disk, writes, k);
            },
            None => {},
        }
    }
}

/// The steps of a scan, each from where the one before it led to.
pub open spec fn scan_runs(
    geo: JournalGeometry,
    blocks: Set<u64>,
    view: LogView,
    scans: Seq<CoverScan>,
    steps: Seq<CoverNext>,
) -> bool {
    &&& scans.len() == steps.len()
    &&& scans.len() > 0
    &&& forall|i: int|
        0 <= i < scans.len() ==> {
            let next = #[trigger] steps[i];
            &&& scans[i].wf(geo)
            &&& next.wf(geo)
            &&& next matches CoverNext::Read(scan) ==> scans[i].consumed < scan.consumed
            &&& scans[i].outcome(geo.superblock, geo.block_map@.len(), blocks, view)
                == next.outcome(geo.superblock, geo.block_map@.len(), blocks, view)
        }
    &&& forall|i: int|
        0 <= i < scans.len() - 1 ==> #[trigger] steps[i] == CoverNext::Read(scans[i + 1])
}

/// A scan ends, whatever the log holds, and has found out then what it was to.
pub proof fn cover_scan_arrives(
    geo: JournalGeometry,
    blocks: Set<u64>,
    view: LogView,
    scans: Seq<CoverScan>,
    steps: Seq<CoverNext>,
    i: int,
)
    requires
        scan_runs(geo, blocks, view, scans, steps),
        0 <= i < scans.len(),
    ensures
        i <= scans[i].consumed <= geo.superblock.maxlen,
        scans[0].outcome(geo.superblock, geo.block_map@.len(), blocks, view) == steps[i].outcome(
            geo.superblock,
            geo.block_map@.len(),
            blocks,
            view,
        ),
    decreases i,
{
    assert(steps[i].wf(geo));
    if i > 0 {
        cover_scan_arrives(geo, blocks, view, scans, steps, i - 1);
        assert(steps[i - 1] == CoverNext::Read(scans[i]));
    }
}

/// A pass took the log block that it had asked for, by this step.
pub open spec fn pass_took(
    pass: CheckpointPass,
    geo: JournalGeometry,
    view: LogView,
    step: PassStep,
) -> bool {
    &&& pass.wf(geo)
    &&& step.next.wf(geo)
    &&& step.next matches PassNext::Read(next) ==> next.is_ahead_of(pass)
    &&& pass.outcome(geo, view) == step.outcome(geo, view)
}

/// The steps of a pass, each from where the one before it led to.
pub open spec fn pass_runs(
    geo: JournalGeometry,
    view: LogView,
    passes: Seq<CheckpointPass>,
    steps: Seq<PassStep>,
) -> bool {
    &&& passes.len() == steps.len()
    &&& passes.len() > 0
    &&& forall|i: int|
        0 <= i < passes.len() ==> pass_took(passes[i], geo, view, #[trigger] steps[i])
    &&& forall|i: int|
        0 <= i < passes.len() - 1 ==> (#[trigger] steps[i]).next == PassNext::Read(passes[i + 1])
}

/// The blocks that the steps of a pass write home.
pub open spec fn pass_writes(steps: Seq<PassStep>) -> Seq<Image>
    decreases steps.len(),
{
    if steps.len() == 0 {
        Seq::empty()
    } else {
        written_image(steps[0].write) + pass_writes(steps.skip(1))
    }
}

/// How a pass ended, if it did.
pub open spec fn pass_result(next: PassNext) -> Result<Option<Retirement>, Error> {
    match next {
        PassNext::Retire(retirement) => Ok(Some(retirement)),
        PassNext::Idle => Ok(None),
        PassNext::Failed(e) => Err(e),
        PassNext::Read(_) => arbitrary(),
    }
}

/// As many steps as a pass can still make at most: for each transaction that is left,
/// those of a scan and of a walk, less what was made at the transaction at hand.
pub open spec fn pass_steps_left(geo: JournalGeometry, pass: CheckpointPass) -> int {
    txns_left(pass.input.committed_tid, pass.tid) * (2 * walk_limit(geo)) - (match pass.stage {
        PassStage::Cover(_) => 0,
        PassStage::Apply(_) => walk_limit(geo) as int,
    }) - pass.consumed()
}

proof fn lemma_pass_steps_left(geo: JournalGeometry, pass: CheckpointPass)
    requires
        pass.wf(geo),
    ensures
        pass_steps_left(geo, pass) > 0,
        pass.consumed() < walk_limit(geo),
{
    let n = txns_left(pass.input.committed_tid, pass.tid) as int;
    let l = walk_limit(geo) as int;
    assert(n * (2 * l) >= 2 * l) by (nonlinear_arith)
        requires
            n >= 1,
            l >= 0,
    ;
}

/// Each step of a pass leaves fewer steps to make.
proof fn lemma_pass_gets_further(
    geo: JournalGeometry,
    before: CheckpointPass,
    after: CheckpointPass,
)
    requires
        before.wf(geo),
        after.wf(geo),
        after.is_ahead_of(before),
    ensures
        pass_steps_left(geo, after) < pass_steps_left(geo, before),
{
    lemma_pass_steps_left(geo, before);
    lemma_pass_steps_left(geo, after);
    let n = txns_left(before.input.committed_tid, before.tid) as int;
    let l = walk_limit(geo) as int;
    if after.tid != before.tid {
        assert(txns_left(after.input.committed_tid, after.tid) == n - 1);
        assert((n - 1) * (2 * l) == n * (2 * l) - 2 * l) by (nonlinear_arith);
    }
}

proof fn lemma_pass_counts(
    geo: JournalGeometry,
    view: LogView,
    passes: Seq<CheckpointPass>,
    steps: Seq<PassStep>,
    i: int,
)
    requires
        pass_runs(geo, view, passes, steps),
        0 <= i < passes.len(),
    ensures
        passes[i].wf(geo),
        pass_steps_left(geo, passes[i]) <= pass_steps_left(geo, passes[0]) - i,
    decreases i,
{
    assert(pass_took(passes[i], geo, view, steps[i]));
    if i > 0 {
        lemma_pass_counts(geo, view, passes, steps, i - 1);
        assert(pass_took(passes[i - 1], geo, view, steps[i - 1]));
        assert(steps[i - 1].next == PassNext::Read(passes[i]));
        lemma_pass_gets_further(geo, passes[i - 1], passes[i]);
    }
}

/// A pass ends, whatever the log holds: it makes no more steps than a bound that the
/// size of the log and the committed transactions give. When it has ended, it has
/// written home what it was to, and comes to where it was to.
pub proof fn checkpoint_pass_arrives(
    geo: JournalGeometry,
    view: LogView,
    passes: Seq<CheckpointPass>,
    steps: Seq<PassStep>,
)
    requires
        pass_runs(geo, view, passes, steps),
    ensures
        steps.len() <= pass_steps_left(geo, passes[0]),
        !(steps.last().next is Read) ==> passes[0].outcome(geo, view) == (PassOutcome {
            writes: pass_writes(steps),
            result: pass_result(steps.last().next),
        }),
    decreases steps.len(),
{
    let last = passes.len() - 1;
    lemma_pass_counts(geo, view, passes, steps, last);
    lemma_pass_steps_left(geo, passes[last]);
    assert(pass_took(passes[0], geo, view, steps[0]));
    assert(pass_took(passes[last], geo, view, steps[last]));
    if !(steps.last().next is Read) {
        if steps.len() == 1 {
            assert(steps.skip(1) =~= Seq::empty());
            assert(pass_writes(steps) =~= written_image(steps[0].write));
        } else {
            let rest_passes = passes.skip(1);
            let rest_steps = steps.skip(1);
            assert forall|i: int| 0 <= i < rest_passes.len() implies pass_took(
                rest_passes[i],
                geo,
                view,
                #[trigger] rest_steps[i],
            ) by {
                assert(pass_took(passes[i + 1], geo, view, steps[i + 1]));
            }
            assert forall|i: int| 0 <= i < rest_passes.len() - 1 implies (
            #[trigger] rest_steps[i]).next == PassNext::Read(rest_passes[i + 1]) by {
                assert(steps[i + 1].next == PassNext::Read(passes[i + 2]));
            }
            checkpoint_pass_arrives(geo, view, rest_passes, rest_steps);
            assert(steps[0].next == PassNext::Read(passes[1]));
            assert(rest_passes[0] == passes[1]);
        }
        assert(passes[0].outcome(geo, view) =~= PassOutcome {
            writes: pass_writes(steps),
            result: pass_result(steps.last().next),
        });
    }
}

} // verus!
