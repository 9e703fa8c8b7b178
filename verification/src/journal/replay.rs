//! What reading a transaction back from the log gives of what was written: the
//! laws that tie the walks over the log to the log that a commit writes.

use vstd::prelude::*;

use crate::bytes::BLOCK_SIZE;
use crate::error::Error;
use crate::journal::apply::{
    applied, applied_chain, applied_data, applied_tags, covers, covers_chain, covers_tags, writing,
    ApplyOutcome, LogView,
};
use crate::journal::blockmap::Dated;
use crate::journal::chain::{
    chain_log, commit_block, commit_block_round_trips, footprint, run_log, transaction_log,
    transaction_log_has_footprint, CommitTime,
};
use crate::journal::descriptor::{
    descriptor_round_trips, escape_round_trips, full_blocks, logged_form, restored, run_fits_tags,
    run_tag, Image,
};
use crate::journal::format::JOURNAL_HEADER_SIZE;
use crate::journal::geometry::{
    in_ring, ring_advance, ring_advance_adds, ring_advance_is_modular, ring_next, ring_size,
};
use crate::journal::revoke::{
    first_run, revoke_block, revoke_block_round_trips, revoke_blocks, revoke_capacity, revokes_fit,
    suppressed,
};
use crate::journal::superblock::JournalSuperblock;
use crate::journal::tag::{lemma_capacity, DescriptorTag};
use crate::journal::tid::Tid;

verus! {

/// The log holds `blocks` one after another from `start` on.
pub open spec fn holds(
    view: LogView,
    sb: JournalSuperblock,
    start: int,
    blocks: Seq<Seq<u8>>,
) -> bool {
    forall|i: int|
        0 <= i < blocks.len() ==> view(#[trigger] ring_advance(sb, start, i as nat)) == blocks[i]
}

/// The images that a transaction restores: all that are not suppressed, in
/// their order.
pub open spec fn restores(records: Map<u64, Dated<()>>, tid: Tid, caps: Seq<Image>) -> Seq<Image>
    decreases caps.len(),
{
    if caps.len() == 0 {
        Seq::empty()
    } else if suppressed(records, caps[0].blocknr, tid) {
        restores(records, tid, caps.skip(1))
    } else {
        seq![caps[0]] + restores(records, tid, caps.skip(1))
    }
}

/// A walk that first writes `images`.
pub open spec fn writing_all(images: Seq<Image>, rest: ApplyOutcome) -> ApplyOutcome {
    ApplyOutcome { writes: images + rest.writes, result: rest.result }
}

/// The transaction's blocks can be written to the log of this journal.
pub open spec fn loggable(sb: JournalSuperblock, caps: Seq<Image>, revokes: Seq<u64>) -> bool {
    &&& full_blocks(caps)
    &&& run_fits_tags(sb.tag_layout, caps)
    &&& revokes_fit(sb.tag_layout, revokes)
}

proof fn lemma_in_ring_next(sb: JournalSuperblock, log: int)
    requires
        sb.wf(),
        in_ring(sb, log),
    ensures
        in_ring(sb, ring_next(sb, log)),
        ring_advance(sb, log, 1) == ring_next(sb, log),
{
    reveal_with_fuel(ring_advance, 2);
}

proof fn lemma_restores_splits(
    records: Map<u64, Dated<()>>,
    tid: Tid,
    caps: Seq<Image>,
    n: int,
)
    requires
        0 <= n <= caps.len(),
    ensures
        restores(records, tid, caps) == restores(records, tid, caps.take(n)) + restores(
            records,
            tid,
            caps.skip(n),
        ),
    decreases n,
{
    if n == 0 {
        assert(caps.skip(0) =~= caps);
        assert(restores(records, tid, caps.take(0)) =~= Seq::empty());
        assert(Seq::<Image>::empty() + restores(records, tid, caps) =~= restores(
            records,
            tid,
            caps,
        ));
    } else {
        let tail = caps.skip(1);
        lemma_restores_splits(records, tid, tail, n - 1);
        assert(caps.take(n).skip(1) =~= tail.take(n - 1));
        assert(tail.skip(n - 1) =~= caps.skip(n));
        assert(restores(records, tid, caps) =~= restores(records, tid, caps.take(n)) + restores(
            records,
            tid,
            caps.skip(n),
        ));
    }
}

/// The tags that a reader finds in the descriptor of a run.
pub open spec fn run_items(sb: JournalSuperblock, tid: Tid, run: Seq<Image>) -> Seq<
    Result<DescriptorTag, Error>,
> {
    Seq::new(
        run.len(),
        |i: int| Ok::<DescriptorTag, Error>(run_tag(sb.tag_layout, sb.csum_seed, tid, run, i)),
    )
}

/// The block `i` of a run is read back with its content: its checksum is
/// right, and its escape is undone.
proof fn lemma_run_block_reads_back(sb: JournalSuperblock, tid: Tid, run: Seq<Image>, i: int)
    requires
        sb.wf(),
        full_blocks(run),
        run_fits_tags(sb.tag_layout, run),
        0 <= i < run.len() <= sb.tag_layout.capacity(),
    ensures
        run_tag(sb.tag_layout, sb.csum_seed, tid, run, i).blocknr == run[i].blocknr,
        sb.csum_seed is Some ==> run_tag(sb.tag_layout, sb.csum_seed, tid, run, i).data_ok(
            sb.csum_seed->0,
            tid,
            logged_form(run[i].bytes),
        ),
        (Image {
            blocknr: run_tag(sb.tag_layout, sb.csum_seed, tid, run, i).blocknr,
            bytes: restored(
                run_tag(sb.tag_layout, sb.csum_seed, tid, run, i).escaped(),
                logged_form(run[i].bytes),
            ),
        }) == run[i],
{
    descriptor_round_trips(sb.tag_layout, sb.csum_seed, tid, run);
    escape_round_trips(run[i].bytes);
}

/// What the log holds `i` blocks on.
proof fn lemma_holds_at(
    view: LogView,
    sb: JournalSuperblock,
    start: int,
    blocks: Seq<Seq<u8>>,
    i: int,
)
    requires
        holds(view, sb, start, blocks),
        0 <= i < blocks.len(),
    ensures
        view(ring_advance(sb, start, i as nat)) == blocks[i],
        i == 0 ==> view(start) == blocks[i],
{
    let at = ring_advance(sb, start, i as nat);
    assert(view(at) == blocks[i]);
}

proof fn lemma_run_applies(
    sb: JournalSuperblock,
    mapped: nat,
    records: Map<u64, Dated<()>>,
    view: LogView,
    tid: Tid,
    run: Seq<Image>,
    i: int,
    log: int,
    consumed: int,
)
    requires
        sb.wf(),
        mapped >= sb.maxlen,
        in_ring(sb, log),
        full_blocks(run),
        run_fits_tags(sb.tag_layout, run),
        0 < run.len() <= sb.tag_layout.capacity(),
        0 <= i <= run.len(),
        holds(view, sb, log, run_log(sb.tag_layout, sb.csum_seed, tid, run)),
    ensures
        applied_tags(
            sb,
            mapped,
            records,
            view,
            tid,
            run_items(sb, tid, run).skip(i),
            ring_advance(sb, log, i as nat),
            consumed + i,
            false,
        ) == writing_all(
            restores(records, tid, run.skip(i)),
            applied_tags(
                sb,
                mapped,
                records,
                view,
                tid,
                Seq::empty(),
                ring_advance(sb, log, run.len()),
                consumed + run.len(),
                false,
            ),
        ),
    decreases run.len() - i,
{
    let items = run_items(sb, tid, run);
    let end = applied_tags(
        sb,
        mapped,
        records,
        view,
        tid,
        Seq::empty(),
        ring_advance(sb, log, run.len()),
        consumed + run.len(),
        false,
    );
    if i == run.len() {
        assert(items.skip(i) =~= Seq::empty());
        assert(writing_all(restores(records, tid, run.skip(i)), end) =~= end);
    } else {
        let rest = items.skip(i);
        let here = ring_advance(sb, log, i as nat);
        let next = ring_advance(sb, log, (i + 1) as nat);
        let tag = run_tag(sb.tag_layout, sb.csum_seed, tid, run, i);
        lemma_run_applies(sb, mapped, records, view, tid, run, i + 1, log, consumed);
        ring_advance_is_modular(sb, log, i as nat);
        ring_advance_is_modular(sb, log, (i + 1) as nat);
        assert(next == ring_next(sb, here));
        assert(rest[0] == Ok::<DescriptorTag, Error>(tag));
        assert(rest.skip(1) =~= items.skip(i + 1));
        assert(run.skip(i).skip(1) =~= run.skip(i + 1));
        assert(run.skip(i)[0] == run[i]);
        lemma_run_block_reads_back(sb, tid, run, i);
        let block = logged_form(run[i].bytes);
        lemma_holds_at(view, sb, log, run_log(sb.tag_layout, sb.csum_seed, tid, run), i + 1);
        assert(view(next) == block);
        let after = applied_tags(
            sb,
            mapped,
            records,
            view,
            tid,
            items.skip(i + 1),
            next,
            consumed + i + 1,
            false,
        );
        let whole = applied_tags(
            sb,
            mapped,
            records,
            view,
            tid,
            rest,
            here,
            consumed + i,
            false,
        );
        if suppressed(records, tag.blocknr, tid) {
            assert(whole == after);
        } else {
            let data = applied_data(
                sb,
                mapped,
                records,
                view,
                tid,
                tag,
                items.skip(i + 1),
                next,
                consumed + i + 1,
                false,
            );
            assert(whole == data);
            assert(data == writing(run[i], after));
            assert(writing(run[i], after) =~= writing_all(
                restores(records, tid, run.skip(i)),
                end,
            ));
        }
    }
}

proof fn lemma_chain_applies(
    sb: JournalSuperblock,
    mapped: nat,
    records: Map<u64, Dated<()>>,
    view: LogView,
    tid: Tid,
    caps: Seq<Image>,
    now: CommitTime,
    log: int,
    consumed: int,
)
    requires
        sb.wf(),
        mapped >= sb.maxlen,
        in_ring(sb, log),
        full_blocks(caps),
        run_fits_tags(sb.tag_layout, caps),
        holds(
            view,
            sb,
            log,
            chain_log(sb.tag_layout, sb.csum_seed, tid, caps) + seq![
                commit_block(tid, sb.csum_seed, now),
            ],
        ),
        consumed >= 0,
        consumed + chain_log(sb.tag_layout, sb.csum_seed, tid, caps).len() <= sb.maxlen,
    ensures
        applied_chain(sb, mapped, records, view, tid, log, consumed, false) == (ApplyOutcome {
            writes: restores(records, tid, caps),
            result: Ok(
                ring_advance(
                    sb,
                    log,
                    chain_log(sb.tag_layout, sb.csum_seed, tid, caps).len() + 1,
                ) as u32,
            ),
        }),
    decreases caps.len(),
{
    let layout = sb.tag_layout;
    let seed = sb.csum_seed;
    let chain = chain_log(layout, seed, tid, caps);
    let sealing = commit_block(tid, seed, now);
    let blocks = chain + seq![sealing];
    lemma_capacity(layout, 0);
    if caps.len() == 0 {
        lemma_holds_at(view, sb, log, blocks, 0);
        commit_block_round_trips(tid, seed, now);
        lemma_in_ring_next(sb, log);
    } else {
        let n = first_run(caps.len(), layout.capacity());
        let run = caps.take(n);
        let rest = caps.skip(n);
        let first = run_log(layout, seed, tid, run);
        let after = chain_log(layout, seed, tid, rest);
        assert(chain == first + after);
        assert(first.len() == n + 1);
        let next = ring_advance(sb, log, (n + 1) as nat);
        ring_advance_is_modular(sb, log, (n + 1) as nat);
        assert(full_blocks(run)) by {
            assert forall|i: int| 0 <= i < run.len() implies (#[trigger] run[i]).bytes.len()
                == BLOCK_SIZE by {
                assert(run[i] == caps[i]);
            }
        }
        assert(run_fits_tags(layout, run)) by {
            if !layout.has_blocknr_high {
                assert forall|i: int| 0 <= i < run.len() implies (#[trigger] run[i]).blocknr
                    <= u32::MAX by {
                    assert(run[i] == caps[i]);
                }
            }
        }
        assert(full_blocks(rest)) by {
            assert forall|i: int| 0 <= i < rest.len() implies (#[trigger] rest[i]).bytes.len()
                == BLOCK_SIZE by {
                assert(rest[i] == caps[n + i]);
            }
        }
        assert(run_fits_tags(layout, rest)) by {
            if !layout.has_blocknr_high {
                assert forall|i: int| 0 <= i < rest.len() implies (#[trigger] rest[i]).blocknr
                    <= u32::MAX by {
                    assert(rest[i] == caps[n + i]);
                }
            }
        }
        assert(holds(view, sb, log, first)) by {
            assert forall|i: int| 0 <= i < first.len() implies view(
                #[trigger] ring_advance(sb, log, i as nat),
            ) == first[i] by {
                assert(blocks[i] == first[i]);
            }
        }
        assert(holds(view, sb, next, after + seq![sealing])) by {
            assert forall|i: int| 0 <= i < after.len() + 1 implies view(
                #[trigger] ring_advance(sb, next, i as nat),
            ) == (after + seq![sealing])[i] by {
                ring_advance_adds(sb, log, (n + 1) as nat, i as nat);
                assert(blocks[n + 1 + i] == (after + seq![sealing])[i]);
                assert(view(ring_advance(sb, log, (n + 1 + i) as nat)) == blocks[n + 1 + i]);
            }
        }
        // The descriptor.
        lemma_holds_at(view, sb, log, first, 0);
        descriptor_round_trips(layout, seed, tid, run);
        assert(layout.walked(first[0], JOURNAL_HEADER_SIZE as int) =~= run_items(sb, tid, run));
        lemma_run_applies(sb, mapped, records, view, tid, run, 0, log, consumed);
        assert(run_items(sb, tid, run).skip(0) =~= run_items(sb, tid, run));
        assert(run.skip(0) =~= run);
        assert(ring_next(sb, ring_advance(sb, log, n as nat)) == next);
        // The rest of the chain.
        lemma_chain_applies(
            sb,
            mapped,
            records,
            view,
            tid,
            rest,
            now,
            next,
            consumed + n + 1,
        );
        ring_advance_adds(sb, log, (n + 1) as nat, after.len() + 1);
        lemma_restores_splits(records, tid, caps, n);
    }
}

proof fn lemma_revokes_skipped(
    sb: JournalSuperblock,
    mapped: nat,
    records: Map<u64, Dated<()>>,
    view: LogView,
    tid: Tid,
    revokes: Seq<u64>,
    log: int,
    consumed: int,
)
    requires
        sb.wf(),
        mapped >= sb.maxlen,
        in_ring(sb, log),
        revokes_fit(sb.tag_layout, revokes),
        holds(view, sb, log, revoke_blocks(sb.tag_layout, sb.csum_seed, tid, revokes)),
        consumed >= 0,
        consumed + revoke_blocks(sb.tag_layout, sb.csum_seed, tid, revokes).len() <= sb.maxlen,
    ensures
        applied_chain(sb, mapped, records, view, tid, log, consumed, false) == applied_chain(
            sb,
            mapped,
            records,
            view,
            tid,
            ring_advance(
                sb,
                log,
                revoke_blocks(sb.tag_layout, sb.csum_seed, tid, revokes).len(),
            ),
            consumed + revoke_blocks(sb.tag_layout, sb.csum_seed, tid, revokes).len(),
            false,
        ),
        forall|blocks: Set<u64>|
            covers_chain(sb, mapped, blocks, view, tid, log, consumed) == #[trigger] covers_chain(
                sb,
                mapped,
                blocks,
                view,
                tid,
                ring_advance(
                    sb,
                    log,
                    revoke_blocks(sb.tag_layout, sb.csum_seed, tid, revokes).len(),
                ),
                consumed + revoke_blocks(sb.tag_layout, sb.csum_seed, tid, revokes).len(),
            ),
    decreases revokes.len(),
{
    let layout = sb.tag_layout;
    let seed = sb.csum_seed;
    let all = revoke_blocks(layout, seed, tid, revokes);
    let n = first_run(revokes.len(), revoke_capacity(layout));
    if revokes.len() > 0 {
        let run = revokes.take(n);
        let rest = revokes.skip(n);
        let after = revoke_blocks(layout, seed, tid, rest);
        assert(all == seq![revoke_block(layout, seed, tid, run)] + after);
        assert(revokes_fit(layout, run)) by {
            if !layout.has_blocknr_high {
                assert forall|i: int| 0 <= i < run.len() implies #[trigger] run[i] <= u32::MAX by {
                    assert(run[i] == revokes[i]);
                }
            }
        }
        assert(revokes_fit(layout, rest)) by {
            if !layout.has_blocknr_high {
                assert forall|i: int| 0 <= i < rest.len() implies #[trigger] rest[i]
                    <= u32::MAX by {
                    assert(rest[i] == revokes[n + i]);
                }
            }
        }
        revoke_block_round_trips(layout, seed, tid, run);
        lemma_in_ring_next(sb, log);
        let next = ring_next(sb, log);
        lemma_holds_at(view, sb, log, all, 0);
        assert(holds(view, sb, next, after)) by {
            assert forall|i: int| 0 <= i < after.len() implies view(
                #[trigger] ring_advance(sb, next, i as nat),
            ) == after[i] by {
                ring_advance_adds(sb, log, 1, i as nat);
                assert(all[i + 1] == after[i]);
                assert(view(ring_advance(sb, log, (i + 1) as nat)) == all[i + 1]);
            }
        }
        lemma_revokes_skipped(sb, mapped, records, view, tid, rest, next, consumed + 1);
        ring_advance_adds(sb, log, 1, after.len());
        assert forall|blocks: Set<u64>|
            covers_chain(sb, mapped, blocks, view, tid, log, consumed) == #[trigger] covers_chain(
                sb,
                mapped,
                blocks,
                view,
                tid,
                ring_advance(sb, log, all.len()),
                consumed + all.len(),
            ) by {
            assert(covers_chain(sb, mapped, blocks, view, tid, log, consumed) == covers_chain(
                sb,
                mapped,
                blocks,
                view,
                tid,
                next,
                consumed + 1,
            ));
            assert(covers_chain(sb, mapped, blocks, view, tid, next, consumed + 1) == covers_chain(
                sb,
                mapped,
                blocks,
                view,
                tid,
                ring_advance(sb, next, after.len()),
                consumed + 1 + after.len(),
            ));
        }
    }
}

/// A transaction that is in the log is read back as it was committed: applying
/// it writes each captured block home with the content it was captured with,
/// but for those that are suppressed, and ends behind its commit block.
pub proof fn committed_transaction_replays(
    sb: JournalSuperblock,
    mapped: nat,
    records: Map<u64, Dated<()>>,
    view: LogView,
    start: int,
    tid: Tid,
    caps: Seq<Image>,
    revokes: Seq<u64>,
    now: CommitTime,
)
    requires
        sb.wf(),
        mapped >= sb.maxlen,
        in_ring(sb, start),
        loggable(sb, caps, revokes),
        footprint(sb.tag_layout, caps.len(), revokes.len()) <= ring_size(sb),
        holds(
            view,
            sb,
            start,
            transaction_log(sb.tag_layout, sb.csum_seed, tid, caps, revokes, now),
        ),
    ensures
        applied(sb, mapped, records, view, start, tid) == (ApplyOutcome {
            writes: restores(records, tid, caps),
            result: Ok(
                ring_advance(
                    sb,
                    start,
                    footprint(sb.tag_layout, caps.len(), revokes.len()),
                ) as u32,
            ),
        }),
{
    reveal(applied);
    reveal(covers);
    let layout = sb.tag_layout;
    let seed = sb.csum_seed;
    let front = revoke_blocks(layout, seed, tid, revokes);
    let chain = chain_log(layout, seed, tid, caps);
    let sealing = commit_block(tid, seed, now);
    let all = transaction_log(layout, seed, tid, caps, revokes, now);
    transaction_log_has_footprint(layout, seed, tid, caps, revokes, now);
    let mid = ring_advance(sb, start, front.len());
    ring_advance_is_modular(sb, start, front.len());
    assert(holds(view, sb, start, front)) by {
        assert forall|i: int| 0 <= i < front.len() implies view(
            #[trigger] ring_advance(sb, start, i as nat),
        ) == front[i] by {
            assert(all[i] == front[i]);
        }
    }
    assert(holds(view, sb, mid, chain + seq![sealing])) by {
        assert forall|i: int| 0 <= i < chain.len() + 1 implies view(
            #[trigger] ring_advance(sb, mid, i as nat),
        ) == (chain + seq![sealing])[i] by {
            ring_advance_adds(sb, start, front.len(), i as nat);
            assert(all[front.len() + i] == (chain + seq![sealing])[i]);
            assert(view(ring_advance(sb, start, (front.len() + i) as nat)) == all[front.len() + i]);
        }
    }
    lemma_revokes_skipped(sb, mapped, records, view, tid, revokes, start, 0);
    lemma_chain_applies(
        sb,
        mapped,
        records,
        view,
        tid,
        caps,
        now,
        mid,
        front.len() as int,
    );
    ring_advance_adds(sb, start, front.len(), chain.len() + 1);
}

/// Whether a sequence of images has one for a block of `blocks`.
pub open spec fn touches(blocks: Set<u64>, caps: Seq<Image>) -> bool {
    exists|i: int| 0 <= i < caps.len() && blocks.contains(#[trigger] caps[i].blocknr)
}

proof fn lemma_run_covers(
    sb: JournalSuperblock,
    mapped: nat,
    blocks: Set<u64>,
    view: LogView,
    tid: Tid,
    run: Seq<Image>,
    i: int,
    log: int,
    consumed: int,
)
    requires
        sb.wf(),
        0 <= i <= run.len(),
        forall|k: int| 0 <= k < i ==> !blocks.contains(#[trigger] run[k].blocknr),
    ensures
        covers_tags(
            sb,
            mapped,
            blocks,
            view,
            tid,
            run_items(sb, tid, run).skip(i),
            ring_advance(sb, log, i as nat),
            consumed + i,
        ) == (if touches(blocks, run) {
            Ok::<bool, Error>(true)
        } else {
            covers_tags(
                sb,
                mapped,
                blocks,
                view,
                tid,
                Seq::empty(),
                ring_advance(sb, log, run.len()),
                consumed + run.len(),
            )
        }),
    decreases run.len() - i,
{
    let items = run_items(sb, tid, run);
    if i == run.len() {
        assert(items.skip(i) =~= Seq::empty());
        assert(!touches(blocks, run));
    } else {
        let tag = run_tag(sb.tag_layout, sb.csum_seed, tid, run, i);
        assert(items.skip(i)[0] == Ok::<DescriptorTag, Error>(tag));
        assert(items.skip(i).skip(1) =~= items.skip(i + 1));
        if blocks.contains(run[i].blocknr) {
            assert(touches(blocks, run));
        } else {
            lemma_run_covers(sb, mapped, blocks, view, tid, run, i + 1, log, consumed);
        }
    }
}

proof fn lemma_chain_covers(
    sb: JournalSuperblock,
    mapped: nat,
    blocks: Set<u64>,
    view: LogView,
    tid: Tid,
    caps: Seq<Image>,
    now: CommitTime,
    log: int,
    consumed: int,
)
    requires
        sb.wf(),
        mapped >= sb.maxlen,
        in_ring(sb, log),
        run_fits_tags(sb.tag_layout, caps),
        holds(
            view,
            sb,
            log,
            chain_log(sb.tag_layout, sb.csum_seed, tid, caps) + seq![
                commit_block(tid, sb.csum_seed, now),
            ],
        ),
        consumed >= 0,
        consumed + chain_log(sb.tag_layout, sb.csum_seed, tid, caps).len() <= sb.maxlen,
    ensures
        covers_chain(sb, mapped, blocks, view, tid, log, consumed) == Ok::<bool, Error>(
            touches(blocks, caps),
        ),
    decreases caps.len(),
{
    let layout = sb.tag_layout;
    let seed = sb.csum_seed;
    let chain = chain_log(layout, seed, tid, caps);
    let sealing = commit_block(tid, seed, now);
    let all = chain + seq![sealing];
    lemma_capacity(layout, 0);
    if caps.len() == 0 {
        lemma_holds_at(view, sb, log, all, 0);
        commit_block_round_trips(tid, seed, now);
    } else {
        let n = first_run(caps.len(), layout.capacity());
        let run = caps.take(n);
        let rest = caps.skip(n);
        let first = run_log(layout, seed, tid, run);
        let after = chain_log(layout, seed, tid, rest);
        assert(chain == first + after);
        let next = ring_advance(sb, log, (n + 1) as nat);
        ring_advance_is_modular(sb, log, (n + 1) as nat);
        if !layout.has_blocknr_high {
            assert forall|i: int| 0 <= i < run.len() implies (#[trigger] run[i]).blocknr
                <= u32::MAX by {
                assert(run[i] == caps[i]);
            }
            assert forall|i: int| 0 <= i < rest.len() implies (#[trigger] rest[i]).blocknr
                <= u32::MAX by {
                assert(rest[i] == caps[n + i]);
            }
        }
        assert(holds(view, sb, next, after + seq![sealing])) by {
            assert forall|i: int| 0 <= i < after.len() + 1 implies view(
                #[trigger] ring_advance(sb, next, i as nat),
            ) == (after + seq![sealing])[i] by {
                ring_advance_adds(sb, log, (n + 1) as nat, i as nat);
                assert(all[n + 1 + i] == (after + seq![sealing])[i]);
                assert(view(ring_advance(sb, log, (n + 1 + i) as nat)) == all[n + 1 + i]);
            }
        }
        lemma_holds_at(view, sb, log, all, 0);
        descriptor_round_trips(layout, seed, tid, run);
        assert(layout.walked(first[0], JOURNAL_HEADER_SIZE as int) =~= run_items(sb, tid, run));
        lemma_run_covers(sb, mapped, blocks, view, tid, run, 0, log, consumed);
        assert(run_items(sb, tid, run).skip(0) =~= run_items(sb, tid, run));
        assert(ring_next(sb, ring_advance(sb, log, n as nat)) == next);
        if touches(blocks, run) {
            let i = choose|i: int|
                0 <= i < run.len() && blocks.contains(#[trigger] run[i].blocknr);
            assert(blocks.contains(caps[i].blocknr));
        } else {
            lemma_chain_covers(
                sb,
                mapped,
                blocks,
                view,
                tid,
                rest,
                now,
                next,
                consumed + n + 1,
            );
            if touches(blocks, caps) {
                let i = choose|i: int|
                    0 <= i < caps.len() && blocks.contains(#[trigger] caps[i].blocknr);
                if i < n {
                    assert(run[i] == caps[i]);
                } else {
                    assert(rest[i - n] == caps[i]);
                    assert(blocks.contains(rest[i - n].blocknr));
                }
            }
            if touches(blocks, rest) {
                let i = choose|i: int|
                    0 <= i < rest.len() && blocks.contains(#[trigger] rest[i].blocknr);
                assert(blocks.contains(caps[n + i].blocknr));
            }
        }
    }
}

/// A scan of a transaction that is in the log finds out whether one of the
/// blocks asked for was captured.
pub proof fn committed_transaction_covers(
    sb: JournalSuperblock,
    mapped: nat,
    blocks: Set<u64>,
    view: LogView,
    start: int,
    tid: Tid,
    caps: Seq<Image>,
    revokes: Seq<u64>,
    now: CommitTime,
)
    requires
        sb.wf(),
        mapped >= sb.maxlen,
        in_ring(sb, start),
        loggable(sb, caps, revokes),
        footprint(sb.tag_layout, caps.len(), revokes.len()) <= ring_size(sb),
        holds(
            view,
            sb,
            start,
            transaction_log(sb.tag_layout, sb.csum_seed, tid, caps, revokes, now),
        ),
    ensures
        covers(sb, mapped, blocks, view, start, tid) == Ok::<bool, Error>(touches(blocks, caps)),
{
    reveal(applied);
    reveal(covers);
    let layout = sb.tag_layout;
    let seed = sb.csum_seed;
    let front = revoke_blocks(layout, seed, tid, revokes);
    let chain = chain_log(layout, seed, tid, caps);
    let sealing = commit_block(tid, seed, now);
    let all = transaction_log(layout, seed, tid, caps, revokes, now);
    transaction_log_has_footprint(layout, seed, tid, caps, revokes, now);
    let mid = ring_advance(sb, start, front.len());
    ring_advance_is_modular(sb, start, front.len());
    assert(holds(view, sb, start, front)) by {
        assert forall|i: int| 0 <= i < front.len() implies view(
            #[trigger] ring_advance(sb, start, i as nat),
        ) == front[i] by {
            assert(all[i] == front[i]);
        }
    }
    assert(holds(view, sb, mid, chain + seq![sealing])) by {
        assert forall|i: int| 0 <= i < chain.len() + 1 implies view(
            #[trigger] ring_advance(sb, mid, i as nat),
        ) == (chain + seq![sealing])[i] by {
            ring_advance_adds(sb, start, front.len(), i as nat);
            assert(all[front.len() + i] == (chain + seq![sealing])[i]);
            assert(view(ring_advance(sb, start, (front.len() + i) as nat)) == all[front.len() + i]);
        }
    }
    lemma_revokes_skipped(sb, mapped, Map::empty(), view, tid, revokes, start, 0);
    lemma_chain_covers(sb, mapped, blocks, view, tid, caps, now, mid, front.len() as int);
}

/// The disk after some blocks were written home.
pub open spec fn home_after(disk: Map<u64, Seq<u8>>, writes: Seq<Image>) -> Map<u64, Seq<u8>>
    decreases writes.len(),
{
    if writes.len() == 0 {
        disk
    } else {
        home_after(disk, writes.drop_last()).insert(writes.last().blocknr, writes.last().bytes)
    }
}

/// The last write to a block is the one that stays.
pub proof fn newest_write_stays(
    disk: Map<u64, Seq<u8>>,
    writes: Seq<Image>,
    i: int,
)
    requires
        0 <= i < writes.len(),
        forall|j: int| i < j < writes.len() ==> (#[trigger] writes[j]).blocknr != writes[i].blocknr,
    ensures
        home_after(disk, writes).dom().contains(writes[i].blocknr),
        home_after(disk, writes)[writes[i].blocknr] == writes[i].bytes,
    decreases writes.len(),
{
    if i < writes.len() - 1 {
        assert(writes[writes.len() - 1].blocknr != writes[i].blocknr);
        newest_write_stays(disk, writes.drop_last(), i);
    }
}

/// A block that is not written stays as it was.
pub proof fn other_blocks_stay(disk: Map<u64, Seq<u8>>, writes: Seq<Image>, blocknr: u64)
    requires
        forall|j: int| 0 <= j < writes.len() ==> (#[trigger] writes[j]).blocknr != blocknr,
    ensures
        home_after(disk, writes).dom().contains(blocknr) == disk.dom().contains(blocknr),
        disk.dom().contains(blocknr) ==> home_after(disk, writes)[blocknr] == disk[blocknr],
    decreases writes.len(),
{
    if writes.len() > 0 {
        assert(writes[writes.len() - 1].blocknr != blocknr);
        other_blocks_stay(disk, writes.drop_last(), blocknr);
    }
}

/// The last of the writes that goes to `blocknr`, if any.
pub proof fn lemma_last_write(writes: Seq<Image>, blocknr: u64) -> (r: Option<int>)
    ensures
        r matches Some(i) ==> {
            &&& 0 <= i < writes.len()
            &&& writes[i].blocknr == blocknr
            &&& forall|j: int| i < j < writes.len() ==> (#[trigger] writes[j]).blocknr != blocknr
        },
        r is None ==> forall|j: int|
            0 <= j < writes.len() ==> (#[trigger] writes[j]).blocknr != blocknr,
    decreases writes.len(),
{
    if writes.len() == 0 {
        None
    } else if writes.last().blocknr == blocknr {
        Some(writes.len() - 1)
    } else {
        let front = writes.drop_last();
        let r = lemma_last_write(front, blocknr);
        match r {
            Some(i) => {
                assert forall|j: int| i < j < writes.len() implies (#[trigger] writes[j]).blocknr
                    != blocknr by {
                    if j < front.len() {
                        assert(front[j].blocknr != blocknr);
                    }
                }
            },
            None => {
                assert forall|j: int| 0 <= j < writes.len() implies (#[trigger] writes[j]).blocknr
                    != blocknr by {
                    if j < front.len() {
                        assert(front[j].blocknr != blocknr);
                    }
                }
            },
        }
        r
    }
}

/// Writing the same blocks again changes nothing: replaying a log once more,
/// after a crash that came before its tail was moved, is harmless.
pub proof fn replay_is_idempotent(disk: Map<u64, Seq<u8>>, writes: Seq<Image>)
    ensures
        home_after(home_after(disk, writes), writes) == home_after(disk, writes),
{
    let once = home_after(disk, writes);
    let twice = home_after(once, writes);
    assert forall|b: u64|
        twice.dom().contains(b) == once.dom().contains(b) && (once.dom().contains(b)
            ==> #[trigger] twice[b] == once[b]) by {
        match lemma_last_write(writes, b) {
            Some(i) => {
                newest_write_stays(disk, writes, i);
                newest_write_stays(once, writes, i);
            },
            None => {
                other_blocks_stay(once, writes, b);
            },
        }
    }
    assert(twice.dom() =~= once.dom()) by {
        assert forall|b: u64| twice.dom().contains(b) == once.dom().contains(b) by {
            assert(twice[b] == twice[b]);
        }
    }
    assert(twice =~= once);
}

/// A replay that was cut short by a crash and is run again from the start
/// leaves the disk as an undisturbed one would.
pub proof fn interrupted_replay_is_harmless(disk: Map<u64, Seq<u8>>, writes: Seq<Image>, n: int)
    requires
        0 <= n <= writes.len(),
    ensures
        home_after(home_after(disk, writes.take(n)), writes) == home_after(disk, writes),
{
    let cut = home_after(disk, writes.take(n));
    let again = home_after(cut, writes);
    let once = home_after(disk, writes);
    assert forall|b: u64|
        again.dom().contains(b) == once.dom().contains(b) && (once.dom().contains(b)
            ==> #[trigger] again[b] == once[b]) by {
        match lemma_last_write(writes, b) {
            Some(i) => {
                newest_write_stays(disk, writes, i);
                newest_write_stays(cut, writes, i);
            },
            None => {
                other_blocks_stay(disk, writes, b);
                other_blocks_stay(cut, writes, b);
                assert forall|j: int| 0 <= j < n implies (#[trigger] writes.take(n)[j]).blocknr
                    != b by {
                    assert(writes[j].blocknr != b);
                }
                other_blocks_stay(disk, writes.take(n), b);
            },
        }
    }
    assert(again.dom() =~= once.dom()) by {
        assert forall|b: u64| again.dom().contains(b) == once.dom().contains(b) by {
            assert(again[b] == again[b]);
        }
    }
    assert(again =~= once);
}

} // verus!
