//! The log blocks of a transaction: revoke blocks, the chain of descriptors
//! with their data blocks, and the commit block that seals them.

use vstd::prelude::*;

use crate::bytes::{be32, be32_bytes, be64, splice, write_bytes, BLOCK_SIZE};
use crate::error::Error;
use crate::journal::descriptor::{
    build_descriptor_run, images, logged_form, run_descriptor, run_fits_tags, Capture,
    DescriptorRun, Image,
};
use crate::journal::format::{
    commit_csum_ok, header_block, header_bytes, header_of, lemma_header_round_trips, new_block,
    stamped_commit_verifies, with_commit_csum, JournalCsumSeed, RawJournalHeader, BLOCKTYPE_COMMIT,
    JBD2_MAGIC,
};
use crate::journal::revoke::{block_views, first_run, revoke_blocks, revoke_capacity};
use crate::journal::tag::{lemma_capacity, TagLayout};
use crate::journal::tid::Tid;

verus! {

/// Where a commit block keeps the seconds of its time.
pub const COMMIT_SEC_OFFSET: usize = 48;

/// Where a commit block keeps the nanoseconds of its time.
pub const COMMIT_NSEC_OFFSET: usize = 56;

/// A point in time: seconds since the epoch and nanoseconds.
#[derive(Clone, Copy, Debug, PartialEq, Eq, Structural)]
pub struct CommitTime {
    pub secs: u64,
    pub nanos: u32,
}

/// The commit block of the transaction `tid`, made at `now`.
#[verifier::opaque]
pub open spec fn commit_block(tid: Tid, seed: Option<JournalCsumSeed>, now: CommitTime) -> Seq<u8> {
    let timed = splice(
        splice(
            header_block(BLOCKTYPE_COMMIT, tid),
            COMMIT_SEC_OFFSET as int,
            be64(now.secs),
        ),
        COMMIT_NSEC_OFFSET as int,
        be32(now.nanos),
    );
    match seed {
        None => timed,
        Some(seed) => with_commit_csum(seed, timed),
    }
}

/// Builds the commit block of the transaction `tid`.
pub fn build_commit_block(tid: Tid, seed: Option<JournalCsumSeed>, now: CommitTime) -> (block: [u8;
    BLOCK_SIZE])
    ensures
        block@ == commit_block(tid, seed, now),
{
    reveal(commit_block);
    let mut block = new_block(BLOCKTYPE_COMMIT, tid);
    let high: u32 = (now.secs / 0x1_0000_0000) as u32;
    let low: u32 = (now.secs % 0x1_0000_0000) as u32;
    write_bytes(&mut block, COMMIT_SEC_OFFSET, &be32_bytes(high));
    write_bytes(&mut block, COMMIT_SEC_OFFSET + 4, &be32_bytes(low));
    assert(block@ =~= splice(
        header_block(BLOCKTYPE_COMMIT, tid),
        COMMIT_SEC_OFFSET as int,
        be64(now.secs),
    ));
    write_bytes(&mut block, COMMIT_NSEC_OFFSET, &be32_bytes(now.nanos));
    if let Some(seed) = seed {
        seed.stamp_commit_block(&mut block);
    }
    block
}

/// A commit block has the header of its transaction, and its checksum is right.
pub proof fn commit_block_round_trips(tid: Tid, seed: Option<JournalCsumSeed>, now: CommitTime)
    ensures
        commit_block(tid, seed, now).len() == BLOCK_SIZE,
        header_of(commit_block(tid, seed, now)) == (RawJournalHeader {
            h_magic: JBD2_MAGIC,
            h_blocktype: BLOCKTYPE_COMMIT,
            h_sequence: tid.0,
        }),
        seed matches Some(s) ==> commit_csum_ok(s, commit_block(tid, seed, now)),
{
    reveal(commit_block);
    let block = commit_block(tid, seed, now);
    let timed = splice(
        splice(
            header_block(BLOCKTYPE_COMMIT, tid),
            COMMIT_SEC_OFFSET as int,
            be64(now.secs),
        ),
        COMMIT_NSEC_OFFSET as int,
        be32(now.nanos),
    );
    assert(block.take(12) =~= header_bytes(BLOCKTYPE_COMMIT, tid));
    lemma_header_round_trips(block, BLOCKTYPE_COMMIT, tid);
    if let Some(s) = seed {
        stamped_commit_verifies(s, timed);
    }
}

/// The log blocks of one run: its descriptor, then its blocks as they stand in
/// the log.
pub open spec fn run_log(
    layout: TagLayout,
    seed: Option<JournalCsumSeed>,
    tid: Tid,
    run: Seq<Image>,
) -> Seq<Seq<u8>> {
    seq![run_descriptor(layout, seed, tid, run)] + Seq::new(
        run.len(),
        |i: int| logged_form(run[i].bytes),
    )
}

/// The log blocks of a sequence of images: runs that fill a descriptor each,
/// and a last one with what is left.
pub open spec fn chain_log(
    layout: TagLayout,
    seed: Option<JournalCsumSeed>,
    tid: Tid,
    caps: Seq<Image>,
) -> Seq<Seq<u8>>
    decreases caps.len(),
{
    let n = first_run(caps.len(), layout.capacity());
    if caps.len() == 0 || n == 0 {
        Seq::empty()
    } else {
        run_log(layout, seed, tid, caps.take(n)) + chain_log(layout, seed, tid, caps.skip(n))
    }
}

/// All log blocks of a transaction.
pub open spec fn transaction_log(
    layout: TagLayout,
    seed: Option<JournalCsumSeed>,
    tid: Tid,
    caps: Seq<Image>,
    revokes: Seq<u64>,
    now: CommitTime,
) -> Seq<Seq<u8>> {
    revoke_blocks(layout, seed, tid, revokes) + chain_log(layout, seed, tid, caps) + seq![
        commit_block(tid, seed, now),
    ]
}

/// `n` items in blocks of `per_block` items: the number of blocks.
pub open spec fn blocks_for(n: nat, per_block: nat) -> nat {
    ((n + per_block - 1) / (per_block as int)) as nat
}

/// How many log blocks a transaction takes.
pub open spec fn footprint(layout: TagLayout, captures: nat, revokes: nat) -> nat {
    blocks_for(revokes, revoke_capacity(layout)) + captures + blocks_for(
        captures,
        layout.capacity(),
    ) + 1
}

proof fn lemma_blocks_for_step(n: nat, per_block: nat)
    requires
        per_block > 0,
        n > 0,
    ensures
        blocks_for(n, per_block) == 1 + blocks_for(
            (n - first_run(n, per_block)) as nat,
            per_block,
        ),
        blocks_for(0, per_block) == 0,
{
    let p = per_block as int;
    vstd::arithmetic::div_mod::lemma_small_mod((p - 1) as nat, per_block);
    vstd::arithmetic::div_mod::lemma_basic_div(p - 1, p);
    if n <= per_block {
        vstd::arithmetic::div_mod::lemma_fundamental_div_mod_converse(n + p - 1, p, 1, n - 1);
    } else {
        let m = n - p;
        assert((m + p - 1 + p) / p == (m + p - 1) / p + 1) by {
            vstd::arithmetic::div_mod::lemma_div_plus_one(m + p - 1, p);
        }
    }
}

/// The chain of `n` images takes `n` blocks and one for each descriptor.
pub proof fn lemma_chain_len(
    layout: TagLayout,
    seed: Option<JournalCsumSeed>,
    tid: Tid,
    caps: Seq<Image>,
)
    requires
        layout.wf(),
    ensures
        chain_log(layout, seed, tid, caps).len() == caps.len() + blocks_for(
            caps.len(),
            layout.capacity(),
        ),
    decreases caps.len(),
{
    lemma_capacity(layout, 0);
    let n = first_run(caps.len(), layout.capacity());
    if caps.len() > 0 {
        lemma_blocks_for_step(caps.len(), layout.capacity());
        lemma_chain_len(layout, seed, tid, caps.skip(n));
    } else {
        lemma_blocks_for_step(1, layout.capacity());
    }
}

proof fn lemma_revoke_capacity(layout: TagLayout)
    requires
        layout.wf(),
    ensures
        500 < revoke_capacity(layout) < 2000,
{
}

/// `n` block numbers take as many revoke blocks as they fill.
pub proof fn lemma_revoke_len(
    layout: TagLayout,
    seed: Option<JournalCsumSeed>,
    tid: Tid,
    revokes: Seq<u64>,
)
    requires
        layout.wf(),
    ensures
        revoke_blocks(layout, seed, tid, revokes).len() == blocks_for(
            revokes.len(),
            revoke_capacity(layout),
        ),
    decreases revokes.len(),
{
    lemma_revoke_capacity(layout);
    let n = first_run(revokes.len(), revoke_capacity(layout));
    if revokes.len() > 0 {
        lemma_blocks_for_step(revokes.len(), revoke_capacity(layout));
        lemma_revoke_len(layout, seed, tid, revokes.skip(n));
    } else {
        lemma_blocks_for_step(1, revoke_capacity(layout));
    }
}

/// The log of a transaction is as long as its footprint says.
pub proof fn transaction_log_has_footprint(
    layout: TagLayout,
    seed: Option<JournalCsumSeed>,
    tid: Tid,
    caps: Seq<Image>,
    revokes: Seq<u64>,
    now: CommitTime,
)
    requires
        layout.wf(),
    ensures
        transaction_log(layout, seed, tid, caps, revokes, now).len() == footprint(
            layout,
            caps.len(),
            revokes.len(),
        ),
{
    lemma_chain_len(layout, seed, tid, caps);
    lemma_revoke_len(layout, seed, tid, revokes);
}

/// The log blocks of a built run.
pub open spec fn built_log<'t>(run: DescriptorRun<'t>) -> Seq<Seq<u8>> {
    seq![run.descriptor@] + Seq::new(run.blocks@.len(), |i: int| run.blocks@[i].logged())
}

/// The log blocks of a built chain.
pub open spec fn built_chain<'t>(runs: Seq<DescriptorRun<'t>>) -> Seq<Seq<u8>>
    decreases runs.len(),
{
    if runs.len() == 0 {
        Seq::empty()
    } else {
        built_chain(runs.drop_last()) + built_log(runs.last())
    }
}

/// The run `i` of a chain: as many images as a descriptor can tag, and in the last
/// run what is left.
pub open spec fn nth_run(caps: Seq<Image>, per_run: nat, i: int) -> Seq<Image> {
    let from = i * per_run;
    caps.subrange(
        from,
        if from + per_run < caps.len() {
            from + per_run
        } else {
            caps.len() as int
        },
    )
}

/// Builds the chain of descriptors of a transaction's captured blocks: one
/// descriptor for each run of as many blocks as a descriptor can tag.
pub fn build_descriptor_chain<'t>(
    tid: Tid,
    captures: &'t [Capture],
    layout: TagLayout,
    seed: Option<JournalCsumSeed>,
) -> (r: Result<Vec<DescriptorRun<'t>>, Error>)
    requires
        layout.wf(),
    ensures
        r is Ok <==> captures@.len() > 0 && (seed is Some <==> layout.csum()) && run_fits_tags(
            layout,
            images(captures@),
        ),
        r matches Err(e) ==> e == (if captures@.len() == 0 {
            Error::EmptyTransaction
        } else if seed is Some <==> layout.csum() {
            Error::BlockTooWide
        } else {
            Error::SeedMismatch
        }),
        r matches Ok(runs) ==> {
            let caps = images(captures@);
            &&& runs@.len() == blocks_for(caps.len(), layout.capacity())
            &&& forall|i: int|
                0 <= i < runs@.len() ==> (#[trigger] runs@[i]).is_run_of(
                    layout,
                    seed,
                    tid,
                    nth_run(caps, layout.capacity(), i),
                )
            &&& built_chain(runs@) == chain_log(layout, seed, tid, caps)
        },
{
    if captures.len() == 0 {
        return Err(Error::EmptyTransaction);
    }
    let per_descriptor: usize = layout.tags_per_descriptor();
    let mut runs: Vec<DescriptorRun<'t>> = Vec::new();
    let ghost all = images(captures@);
    let mut done: usize = 0;
    assert(all.skip(0) =~= all);
    assert(Seq::<Seq<u8>>::empty() + chain_log(layout, seed, tid, all) =~= chain_log(
        layout,
        seed,
        tid,
        all,
    ));
    while done < captures.len()
        invariant
            layout.wf(),
            captures@.len() > 0,
            per_descriptor == layout.capacity(),
            per_descriptor > 0,
            all == images(captures@),
            done <= captures@.len(),
            done > 0 ==> (seed is Some <==> layout.csum()),
            run_fits_tags(layout, all.take(done as int)),
            runs@.len() > 0 ==> (runs@.len() - 1) * per_descriptor < done <= runs@.len()
                * per_descriptor,
            done < captures@.len() ==> done == runs@.len() * per_descriptor,
            runs@.len() == 0 ==> done == 0,
            forall|i: int|
                0 <= i < runs@.len() ==> (#[trigger] runs@[i]).is_run_of(
                    layout,
                    seed,
                    tid,
                    nth_run(all, per_descriptor as nat, i),
                ),
            built_chain(runs@) + chain_log(layout, seed, tid, all.skip(done as int)) == chain_log(
                layout,
                seed,
                tid,
                all,
            ),
        decreases captures.len() - done,
    {
        let left: usize = captures.len() - done;
        let take: usize = if left < per_descriptor {
            left
        } else {
            per_descriptor
        };
        let run = &captures[done..done + take];
        proof {
            assert(images(run@) =~= all.skip(done as int).take(take as int));
            lemma_fit_splits(layout, all, done as int, take as int);
        }
        match build_descriptor_run(tid, run, layout, seed) {
            Ok(built) => {
                proof {
                    lemma_chain_step(layout, seed, tid, all, done as int, take as int, runs@, built);
                    let n = runs@.len() as int;
                    assert((n + 1) * per_descriptor == n * per_descriptor + per_descriptor)
                        by (nonlinear_arith);
                    assert(nth_run(all, per_descriptor as nat, n) =~= all.skip(done as int).take(
                        take as int,
                    ));
                }
                runs.push(built);
            },
            Err(e) => {
                return Err(e);
            },
        }
        done += take;
    }
    proof {
        lemma_blocks_for(all.len(), layout.capacity(), runs@.len());
    }
    assert(all.take(done as int) =~= all);
    assert(all.skip(done as int).len() == 0);
    assert(built_chain(runs@) + Seq::<Seq<u8>>::empty() =~= built_chain(runs@));
    Ok(runs)
}

/// The number of blocks is the one that holds all items, none of them empty.
proof fn lemma_blocks_for(n: nat, per_block: nat, blocks: nat)
    requires
        per_block > 0,
        blocks > 0,
        (blocks - 1) * per_block < n <= blocks * per_block,
    ensures
        blocks_for(n, per_block) == blocks,
{
    let p = per_block as int;
    let r = n + p - 1 - blocks * p;
    assert(n + p - 1 == p * blocks + r) by (nonlinear_arith)
        requires
            r == n + p - 1 - blocks * p,
    ;
    assert(0 <= r < p) by (nonlinear_arith)
        requires
            r == n + p - 1 - blocks * p,
            (blocks - 1) * p < n <= blocks * p,
    ;
    vstd::arithmetic::div_mod::lemma_fundamental_div_mod_converse(n + p - 1, p, blocks as int, r);
}

/// One more run of blocks goes behind a descriptor of its own.
proof fn lemma_chain_step<'t>(
    layout: TagLayout,
    seed: Option<JournalCsumSeed>,
    tid: Tid,
    all: Seq<Image>,
    done: int,
    take: int,
    runs: Seq<DescriptorRun<'t>>,
    built: DescriptorRun<'t>,
)
    requires
        0 <= done < all.len(),
        take == first_run((all.len() - done) as nat, layout.capacity()),
        take > 0,
        built.is_run_of(layout, seed, tid, all.skip(done).take(take)),
        built_chain(runs) + chain_log(layout, seed, tid, all.skip(done)) == chain_log(
            layout,
            seed,
            tid,
            all,
        ),
    ensures
        built_chain(runs.push(built)) + chain_log(layout, seed, tid, all.skip(done + take))
            == chain_log(layout, seed, tid, all),
{
    let rest = all.skip(done);
    let run = rest.take(take);
    let after = chain_log(layout, seed, tid, rest.skip(take));
    assert(rest.skip(take) =~= all.skip(done + take));
    assert(runs.push(built).drop_last() =~= runs);
    assert(built_log(built) =~= run_log(layout, seed, tid, run)) by {
        assert forall|i: int| 0 <= i < run.len() implies #[trigger] built.blocks@[i].logged()
            == logged_form(run[i].bytes) by {}
    }
    assert((built_chain(runs) + built_log(built)) + after =~= built_chain(runs) + (built_log(built)
        + after));
}

/// Block numbers fit if and only if those up to a point and those from there
/// on do.
proof fn lemma_fit_splits(layout: TagLayout, all: Seq<Image>, done: int, take: int)
    requires
        0 <= done,
        0 <= take,
        done + take <= all.len(),
        run_fits_tags(layout, all.take(done)),
    ensures
        run_fits_tags(layout, all.skip(done).take(take)) <==> run_fits_tags(
            layout,
            all.take(done + take),
        ),
        run_fits_tags(layout, all) ==> run_fits_tags(layout, all.skip(done).take(take)),
{
    let run = all.skip(done).take(take);
    if !layout.has_blocknr_high {
        if run_fits_tags(layout, run) {
            assert forall|k: int| 0 <= k < done + take implies (#[trigger] all.take(
                done + take,
            )[k]).blocknr <= u32::MAX by {
                if k < done {
                    assert(all.take(done)[k] == all[k]);
                } else {
                    assert(run[k - done] == all[k]);
                }
            }
        } else {
            let k = choose|k: int| 0 <= k < run.len() && (#[trigger] run[k]).blocknr > u32::MAX;
            assert(all.take(done + take)[done + k] == run[k]);
            assert(all[done + k] == run[k]);
        }
    }
}

/// The contents of boxed blocks.
pub open spec fn boxed_views(blocks: Seq<Box<[u8; BLOCK_SIZE]>>) -> Seq<Seq<u8>> {
    Seq::new(blocks.len(), |i: int| (*blocks[i])@)
}

/// Lines up the blocks of a transaction, as they are to stand in the log, in
/// the order in which they go there.
pub fn line_up<'t>(revokes: &Vec<[u8; BLOCK_SIZE]>, runs: &Vec<DescriptorRun<'t>>) -> (blocks: Vec<
    Box<[u8; BLOCK_SIZE]>,
>)
    ensures
        boxed_views(blocks@) == block_views(revokes@) + built_chain(runs@),
{
    let mut blocks: Vec<Box<[u8; BLOCK_SIZE]>> = Vec::new();
    let ghost front = block_views(revokes@);
    let mut i: usize = 0;
    while i < revokes.len()
        invariant
            i <= revokes@.len(),
            front == block_views(revokes@),
            boxed_views(blocks@) == front.take(i as int),
        decreases revokes.len() - i,
    {
        let ghost before = boxed_views(blocks@);
        blocks.push(Box::new(revokes[i]));
        assert(boxed_views(blocks@) =~= before.push(front[i as int]));
        i += 1;
        assert(boxed_views(blocks@) =~= front.take(i as int));
    }
    assert(front.take(i as int) =~= front);
    assert(runs@.take(0) =~= Seq::empty());
    assert(boxed_views(blocks@) =~= front + built_chain(runs@.take(0)));
    let mut r: usize = 0;
    while r < runs.len()
        invariant
            r <= runs@.len(),
            boxed_views(blocks@) == front + built_chain(runs@.take(r as int)),
        decreases runs.len() - r,
    {
        let run = &runs[r];
        let ghost before = front + built_chain(runs@.take(r as int));
        blocks.push(Box::new(run.descriptor));
        let ghost log = built_log(*run);
        assert(boxed_views(blocks@) =~= before + log.take(1));
        let mut k: usize = 0;
        while k < run.nr_blocks()
            invariant
                k <= run.blocks@.len(),
                log == built_log(*run),
                boxed_views(blocks@) == before + log.take(k + 1),
            decreases run.blocks.len() - k,
        {
            let ghost head = boxed_views(blocks@);
            let block = run.blocks[k].to_logged();
            assert(block@ == log[k + 1]);
            blocks.push(Box::new(block));
            assert(boxed_views(blocks@) =~= head.push(log[k + 1]));
            k += 1;
            assert(boxed_views(blocks@) =~= before + log.take(k + 1));
        }
        proof {
            assert(log.take(k + 1) =~= log);
            assert(runs@.take(r + 1).drop_last() =~= runs@.take(r as int));
            assert(before + log =~= front + built_chain(runs@.take(r + 1)));
        }
        r += 1;
    }
    assert(runs@.take(r as int) =~= runs@);
    blocks
}

} // verus!
