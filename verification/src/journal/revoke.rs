//! Revoke blocks, which list blocks that older transactions must not restore,
//! and the table of what committed transactions have revoked.

use vstd::prelude::*;

use crate::bytes::{
    be32, be32_at, be32_bytes, be64, be64_at, lemma_be32_at, splice, write_bytes, BLOCK_SIZE,
};
use crate::error::Error;
use crate::journal::blockmap::{retired, BlockMap, Dated, Entry};
use crate::journal::format::{
    header_block, header_bytes, header_of, lemma_header_round_trips, new_block,
    stamped_tail_verifies, tail_csum_ok, with_tail_csum, JournalCsumSeed, RawJournalHeader,
    BLOCKTYPE_REVOKE, JBD2_MAGIC, JOURNAL_HEADER_SIZE,
};
use crate::journal::tag::{blocknr_high, blocknr_low, split_blocknr, TagLayout};
use crate::journal::tid::{
    tid_geq, tid_in_window, tid_order_of_neighbours, tid_window_is_ordered, Tid,
};

verus! {

/// Where the entries of a revoke block begin: behind the header and the count
/// of used bytes.
pub const REVOKE_ENTRIES_OFFSET: usize = 16;

/// Bytes of one entry of a revoke block.
pub open spec fn revoke_entry_bytes(layout: TagLayout) -> int {
    if layout.has_blocknr_high {
        8
    } else {
        4
    }
}

/// The most entries that one revoke block can hold.
pub open spec fn revoke_capacity(layout: TagLayout) -> nat {
    ((layout.area_end() - REVOKE_ENTRIES_OFFSET) / revoke_entry_bytes(layout)) as nat
}

/// The bytes of one entry.
pub open spec fn revoke_entry(layout: TagLayout, blocknr: u64) -> Seq<u8> {
    if layout.has_blocknr_high {
        be64(blocknr)
    } else {
        be32(blocknr_low(blocknr))
    }
}

/// A revoke block with the first `n` entries of a run in place.
pub open spec fn revoke_filled(layout: TagLayout, tid: Tid, run: Seq<u64>, n: nat) -> Seq<u8>
    decreases n,
{
    if n == 0 {
        header_block(BLOCKTYPE_REVOKE, tid)
    } else {
        splice(
            revoke_filled(layout, tid, run, (n - 1) as nat),
            REVOKE_ENTRIES_OFFSET + (n - 1) * revoke_entry_bytes(layout),
            revoke_entry(layout, run[n - 1]),
        )
    }
}

/// The revoke block of a run of block numbers.
#[verifier::opaque]
pub open spec fn revoke_block(
    layout: TagLayout,
    seed: Option<JournalCsumSeed>,
    tid: Tid,
    run: Seq<u64>,
) -> Seq<u8> {
    let filled = splice(
        revoke_filled(layout, tid, run, run.len()),
        JOURNAL_HEADER_SIZE as int,
        be32((REVOKE_ENTRIES_OFFSET + run.len() * revoke_entry_bytes(layout)) as u32),
    );
    match seed {
        None => filled,
        Some(seed) => with_tail_csum(seed, filled),
    }
}

/// The block numbers fit the layout's entries.
pub open spec fn revokes_fit(layout: TagLayout, run: Seq<u64>) -> bool {
    layout.has_blocknr_high || forall|i: int| 0 <= i < run.len() ==> #[trigger] run[i] <= u32::MAX
}

/// How many of `len` items go into the first block, when a block holds
/// `capacity` items.
pub open spec fn first_run(len: nat, capacity: nat) -> int {
    if len <= capacity {
        len as int
    } else {
        capacity as int
    }
}

/// The revoke blocks of a sequence of block numbers, filled one after another.
pub open spec fn revoke_blocks(
    layout: TagLayout,
    seed: Option<JournalCsumSeed>,
    tid: Tid,
    revokes: Seq<u64>,
) -> Seq<Seq<u8>>
    decreases revokes.len(),
{
    let n = first_run(revokes.len(), revoke_capacity(layout));
    if revokes.len() == 0 || n == 0 {
        Seq::empty()
    } else {
        seq![revoke_block(layout, seed, tid, revokes.take(n))] + revoke_blocks(
            layout,
            seed,
            tid,
            revokes.skip(n),
        )
    }
}

/// The bytes of entries that a revoke block says it has.
pub open spec fn revoked_count(layout: TagLayout, block: Seq<u8>) -> int {
    (be32_at(block, JOURNAL_HEADER_SIZE as int) - REVOKE_ENTRIES_OFFSET) / revoke_entry_bytes(
        layout,
    )
}

/// The entry `i` of a revoke block.
pub open spec fn revoked_entry(layout: TagLayout, block: Seq<u8>, i: int) -> u64 {
    let at = REVOKE_ENTRIES_OFFSET + i * revoke_entry_bytes(layout);
    if layout.has_blocknr_high {
        be64_at(block, at)
    } else {
        be32_at(block, at) as u64
    }
}

/// The most entries that one revoke block can hold.
pub fn revoke_entries_per_block(layout: &TagLayout) -> (r: usize)
    requires
        layout.wf(),
    ensures
        r == revoke_capacity(*layout),
        r > 0,
{
    let entry: usize = if layout.has_blocknr_high {
        8
    } else {
        4
    };
    (layout.tag_area_end() - REVOKE_ENTRIES_OFFSET) / entry
}

proof fn lemma_entry_area(layout: TagLayout, i: int, n: int)
    requires
        layout.wf(),
        0 <= i < n <= revoke_capacity(layout),
    ensures
        REVOKE_ENTRIES_OFFSET <= REVOKE_ENTRIES_OFFSET + i * revoke_entry_bytes(layout),
        REVOKE_ENTRIES_OFFSET + i * revoke_entry_bytes(layout) + revoke_entry_bytes(layout)
            <= REVOKE_ENTRIES_OFFSET + n * revoke_entry_bytes(layout) <= layout.area_end(),
{
    if layout.has_blocknr_high {
        assert(i * 8 + 8 <= n * 8);
    } else {
        assert(i * 4 + 4 <= n * 4);
    }
}

/// Builds the revoke block of one run of block numbers.
pub fn build_revoke_block(
    tid: Tid,
    run: &[u64],
    layout: &TagLayout,
    seed: Option<JournalCsumSeed>,
) -> (r: Result<[u8; BLOCK_SIZE], Error>)
    requires
        layout.wf(),
        0 < run@.len() <= revoke_capacity(*layout),
    ensures
        r is Ok <==> (seed is Some <==> layout.csum()) && revokes_fit(*layout, run@),
        r matches Err(e) ==> e == (if seed is Some <==> layout.csum() {
            Error::RevokeTooWide
        } else {
            Error::SeedMismatch
        }),
        r matches Ok(block) ==> block@ == revoke_block(*layout, seed, tid, run@),
{
    if layout.has_csum() != seed.is_some() {
        return Err(Error::SeedMismatch);
    }
    let mut block = new_block(BLOCKTYPE_REVOKE, tid);
    let mut at: usize = REVOKE_ENTRIES_OFFSET;
    let mut i: usize = 0;
    while i < run.len()
        invariant
            layout.wf(),
            i <= run@.len() <= revoke_capacity(*layout),
            at == REVOKE_ENTRIES_OFFSET + i * revoke_entry_bytes(*layout),
            block@ == revoke_filled(*layout, tid, run@, i as nat),
            layout.has_blocknr_high || forall|k: int| 0 <= k < i ==> #[trigger] run@[k] <= u32::MAX,
            seed is Some <==> layout.csum(),
        decreases run.len() - i,
    {
        proof {
            lemma_entry_area(*layout, i as int, run@.len() as int);
            assert((i + 1) * revoke_entry_bytes(*layout) == i * revoke_entry_bytes(*layout)
                + revoke_entry_bytes(*layout)) by (nonlinear_arith);
        }
        let ghost before = block@;
        let (low, high) = split_blocknr(run[i]);
        if layout.has_blocknr_high {
            write_bytes(&mut block, at, &be32_bytes(high));
            write_bytes(&mut block, at + 4, &be32_bytes(low));
            assert(block@ =~= splice(before, at as int, be64(run@[i as int])));
            at += 8;
        } else {
            if high != 0 {
                assert(!revokes_fit(*layout, run@));
                return Err(Error::RevokeTooWide);
            }
            write_bytes(&mut block, at, &be32_bytes(low));
            at += 4;
        }
        i += 1;
    }
    proof {
        lemma_entry_area(*layout, run@.len() - 1, run@.len() as int);
    }
    reveal(revoke_block);
    write_bytes(&mut block, JOURNAL_HEADER_SIZE, &be32_bytes(at as u32));
    if let Some(seed) = seed {
        seed.stamp_block_tail(&mut block);
    }
    Ok(block)
}

/// Builds the revoke blocks of a transaction's revoked blocks. There is none
/// where nothing was revoked.
pub fn build_revoke_blocks(
    tid: Tid,
    revokes: &[u64],
    layout: &TagLayout,
    seed: Option<JournalCsumSeed>,
) -> (r: Result<Vec<[u8; BLOCK_SIZE]>, Error>)
    requires
        layout.wf(),
    ensures
        r is Ok <==> revokes@.len() == 0 || ((seed is Some <==> layout.csum()) && revokes_fit(
            *layout,
            revokes@,
        )),
        r matches Err(e) ==> e == (if seed is Some <==> layout.csum() {
            Error::RevokeTooWide
        } else {
            Error::SeedMismatch
        }),
        r matches Ok(blocks) ==> block_views(blocks@) == revoke_blocks(
            *layout,
            seed,
            tid,
            revokes@,
        ),
{
    let per_block: usize = revoke_entries_per_block(layout);
    let mut blocks: Vec<[u8; BLOCK_SIZE]> = Vec::new();
    let mut done: usize = 0;
    assert(revokes@.skip(0) =~= revokes@);
    assert(block_views(blocks@) + revoke_blocks(*layout, seed, tid, revokes@) =~= revoke_blocks(
        *layout,
        seed,
        tid,
        revokes@,
    ));
    while done < revokes.len()
        invariant
            layout.wf(),
            per_block == revoke_capacity(*layout),
            per_block > 0,
            done <= revokes@.len(),
            done > 0 ==> (seed is Some <==> layout.csum()),
            revokes_fit(*layout, revokes@.take(done as int)),
            block_views(blocks@) + revoke_blocks(*layout, seed, tid, revokes@.skip(done as int))
                == revoke_blocks(*layout, seed, tid, revokes@),
        decreases revokes.len() - done,
    {
        let left: usize = revokes.len() - done;
        let take: usize = if left < per_block {
            left
        } else {
            per_block
        };
        let run = &revokes[done..done + take];
        proof {
            assert(run@ =~= revokes@.skip(done as int).take(take as int));
            lemma_fit_splits(*layout, revokes@, done as int, take as int);
        }
        match build_revoke_block(tid, run, layout, seed) {
            Ok(block) => {
                proof {
                    lemma_revoke_step(
                        *layout,
                        seed,
                        tid,
                        revokes@,
                        done as int,
                        take as int,
                        block_views(blocks@),
                    );
                    assert(block_views(blocks@.push(block)) =~= block_views(blocks@).push(block@));
                }
                blocks.push(block);
            },
            Err(e) => {
                return Err(e);
            },
        }
        done += take;
    }
    assert(revokes@.take(done as int) =~= revokes@);
    assert(revokes@.skip(done as int).len() == 0);
    assert(block_views(blocks@) + Seq::<Seq<u8>>::empty() =~= block_views(blocks@));
    Ok(blocks)
}

/// One more run of block numbers goes into a block of its own.
proof fn lemma_revoke_step(
    layout: TagLayout,
    seed: Option<JournalCsumSeed>,
    tid: Tid,
    revokes: Seq<u64>,
    done: int,
    take: int,
    before: Seq<Seq<u8>>,
)
    requires
        0 <= done < revokes.len(),
        take == first_run((revokes.len() - done) as nat, revoke_capacity(layout)),
        take > 0,
        before + revoke_blocks(layout, seed, tid, revokes.skip(done)) == revoke_blocks(
            layout,
            seed,
            tid,
            revokes,
        ),
    ensures
        before.push(revoke_block(layout, seed, tid, revokes.skip(done).take(take)))
            + revoke_blocks(layout, seed, tid, revokes.skip(done + take)) == revoke_blocks(
            layout,
            seed,
            tid,
            revokes,
        ),
{
    let rest = revokes.skip(done);
    let block = revoke_block(layout, seed, tid, rest.take(take));
    let after = revoke_blocks(layout, seed, tid, rest.skip(take));
    assert(rest.skip(take) =~= revokes.skip(done + take));
    assert(before.push(block) + after =~= before + (seq![block] + after));
}

/// Block numbers fit if and only if those up to a point and those from there
/// on do.
proof fn lemma_fit_splits(layout: TagLayout, revokes: Seq<u64>, done: int, take: int)
    requires
        0 <= done,
        0 <= take,
        done + take <= revokes.len(),
        revokes_fit(layout, revokes.take(done)),
    ensures
        revokes_fit(layout, revokes.skip(done).take(take)) <==> revokes_fit(
            layout,
            revokes.take(done + take),
        ),
        revokes_fit(layout, revokes) ==> revokes_fit(layout, revokes.skip(done).take(take)),
{
    let run = revokes.skip(done).take(take);
    if !layout.has_blocknr_high {
        if revokes_fit(layout, run) {
            assert forall|k: int| 0 <= k < done + take implies #[trigger] revokes.take(
                done + take,
            )[k] <= u32::MAX by {
                if k < done {
                    assert(revokes.take(done)[k] == revokes[k]);
                } else {
                    assert(run[k - done] == revokes[k]);
                }
            }
        } else {
            let k = choose|k: int| 0 <= k < run.len() && #[trigger] run[k] > u32::MAX;
            assert(revokes.take(done + take)[done + k] == run[k]);
            assert(revokes[done + k] == run[k]);
        }
    }
}

/// The contents of a sequence of blocks.
pub open spec fn block_views(blocks: Seq<[u8; BLOCK_SIZE]>) -> Seq<Seq<u8>> {
    Seq::new(blocks.len(), |i: int| blocks[i]@)
}

proof fn lemma_filled(layout: TagLayout, tid: Tid, run: Seq<u64>, n: nat, i: int, k: int)
    requires
        layout.wf(),
        n <= run.len() <= revoke_capacity(layout),
        0 <= i < n,
        0 <= k < revoke_entry_bytes(layout),
    ensures
        revoke_filled(layout, tid, run, n)[REVOKE_ENTRIES_OFFSET + i * revoke_entry_bytes(layout)
            + k] == revoke_entry(layout, run[i])[k],
    decreases n,
{
    lemma_filled_len(layout, tid, run, n);
    lemma_filled_len(layout, tid, run, (n - 1) as nat);
    lemma_entry_area(layout, n - 1, n as int);
    if i < n - 1 {
        lemma_filled(layout, tid, run, (n - 1) as nat, i, k);
        lemma_entry_area(layout, i, n - 1);
    }
}

proof fn lemma_filled_len(layout: TagLayout, tid: Tid, run: Seq<u64>, n: nat)
    requires
        layout.wf(),
        n <= run.len() <= revoke_capacity(layout),
    ensures
        revoke_filled(layout, tid, run, n).len() == BLOCK_SIZE,
        revoke_filled(layout, tid, run, n).take(JOURNAL_HEADER_SIZE as int) == header_bytes(
            BLOCKTYPE_REVOKE,
            tid,
        ),
    decreases n,
{
    if n > 0 {
        lemma_filled_len(layout, tid, run, (n - 1) as nat);
        lemma_entry_area(layout, n - 1, n as int);
    }
    assert(revoke_filled(layout, tid, run, n).take(12) =~= header_bytes(BLOCKTYPE_REVOKE, tid));
}

/// What is written into a revoke block is what a reader finds in it: the
/// number of entries and each entry in its order; its header and its tail
/// checksum are right.
pub proof fn revoke_block_round_trips(
    layout: TagLayout,
    seed: Option<JournalCsumSeed>,
    tid: Tid,
    run: Seq<u64>,
)
    requires
        layout.wf(),
        seed is Some <==> layout.csum(),
        revokes_fit(layout, run),
        0 < run.len() <= revoke_capacity(layout),
    ensures
        revoke_block(layout, seed, tid, run).len() == BLOCK_SIZE,
        header_of(revoke_block(layout, seed, tid, run)) == (RawJournalHeader {
            h_magic: JBD2_MAGIC,
            h_blocktype: BLOCKTYPE_REVOKE,
            h_sequence: tid.0,
        }),
        revoked_count(layout, revoke_block(layout, seed, tid, run)) == run.len(),
        forall|i: int|
            0 <= i < run.len() ==> #[trigger] revoked_entry(
                layout,
                revoke_block(layout, seed, tid, run),
                i,
            ) == run[i],
        seed matches Some(s) ==> tail_csum_ok(s, revoke_block(layout, seed, tid, run)),
{
    reveal(revoke_block);
    let n = run.len();
    let entry = revoke_entry_bytes(layout);
    let body = revoke_filled(layout, tid, run, n);
    let used = (REVOKE_ENTRIES_OFFSET + n * entry) as u32;
    let counted = splice(body, 12, be32(used));
    let block = revoke_block(layout, seed, tid, run);
    lemma_filled_len(layout, tid, run, n);
    lemma_entry_area(layout, n - 1, n as int);
    assert(block.take(12) =~= body.take(12));
    lemma_header_round_trips(block, BLOCKTYPE_REVOKE, tid);
    lemma_be32_at(block, 12, used);
    if layout.has_blocknr_high {
        assert((n * 8) / 8 == n);
    } else {
        assert((n * 4) / 4 == n);
    }
    if let Some(s) = seed {
        stamped_tail_verifies(s, counted);
    }
    assert forall|i: int| 0 <= i < n implies #[trigger] revoked_entry(layout, block, i)
        == run[i] by {
        let at = REVOKE_ENTRIES_OFFSET + i * entry;
        lemma_entry_area(layout, i, n as int);
        assert forall|k: int| 0 <= k < entry implies #[trigger] block[at + k] == revoke_entry(
            layout,
            run[i],
        )[k] by {
            lemma_filled(layout, tid, run, n, i, k);
        }
        let low = blocknr_low(run[i]);
        let high = blocknr_high(run[i]);
        if layout.has_blocknr_high {
            lemma_be32_at(block, at, high);
            assert forall|k: int| 0 <= k < 4 implies #[trigger] block[at + 4 + k] == be32(
                low,
            )[k] by {
                assert(block[at + (4 + k)] == be64(run[i])[4 + k]);
            }
            lemma_be32_at(block, at + 4, low);
        } else {
            lemma_be32_at(block, at, low);
        }
    }
}

/// The blocks that committed transactions have revoked, each with the newest
/// transaction that did.
pub struct RevokeTable {
    pub records: BlockMap<Dated<()>>,
}

/// Whether a table suppresses the image that the transaction `tid` has of
/// `blocknr`: the block was revoked by that transaction or by a later one.
pub open spec fn suppressed(records: Map<u64, Dated<()>>, blocknr: u64, tid: Tid) -> bool {
    records.dom().contains(blocknr) && tid_geq(records[blocknr].tid, tid)
}

/// A table with one more revoke: of two for one block the newer stays.
pub open spec fn recorded(records: Map<u64, Dated<()>>, blocknr: u64, tid: Tid) -> Map<
    u64,
    Dated<()>,
> {
    if suppressed(records, blocknr, tid) {
        records
    } else {
        records.insert(blocknr, Dated { tid, value: () })
    }
}

/// A table with the revokes of the transaction `tid`.
pub open spec fn recorded_all(records: Map<u64, Dated<()>>, blocks: Seq<u64>, tid: Tid) -> Map<
    u64,
    Dated<()>,
>
    decreases blocks.len(),
{
    if blocks.len() == 0 {
        records
    } else {
        recorded(recorded_all(records, blocks.drop_last(), tid), blocks.last(), tid)
    }
}

impl View for RevokeTable {
    type V = Map<u64, Dated<()>>;

    open spec fn view(&self) -> Map<u64, Dated<()>> {
        self.records@
    }
}

impl RevokeTable {
    /// The records are sorted.
    pub open spec fn wf(self) -> bool {
        self.records.wf()
    }

    /// A table without records.
    pub fn new() -> (table: Self)
        ensures
            table.wf(),
            table@ == Map::<u64, Dated<()>>::empty(),
    {
        RevokeTable { records: BlockMap::new() }
    }

    /// A copy of the table.
    pub fn snapshot(&self) -> (table: Self)
        requires
            self.wf(),
        ensures
            table.wf(),
            table@ == self@,
    {
        let mut entries: Vec<Entry<Dated<()>>> = Vec::new();
        let mut i: usize = 0;
        while i < self.records.entries.len()
            invariant
                i <= self.records.entries@.len(),
                entries@ == self.records.entries@.take(i as int),
            decreases self.records.entries.len() - i,
        {
            let entry = &self.records.entries[i];
            let value = Dated { tid: entry.value.tid, value: entry.value.value };
            entries.push(Entry { blocknr: entry.blocknr, value });
            i += 1;
            assert(entries@ =~= self.records.entries@.take(i as int));
        }
        assert(entries@ =~= self.records.entries@);
        RevokeTable { records: BlockMap { entries } }
    }

    /// Whether the image that the transaction `tid` has of `blocknr` must not
    /// be restored.
    pub fn suppresses(&self, blocknr: u64, tid: Tid) -> (r: bool)
        requires
            self.wf(),
        ensures
            r == suppressed(self@, blocknr, tid),
    {
        match self.records.get(blocknr) {
            Some(record) => record.tid.geq(tid),
            None => false,
        }
    }

    /// Records that the transaction `tid` has revoked `blocknr`.
    pub fn record(&mut self, blocknr: u64, tid: Tid)
        requires
            old(self).wf(),
        ensures
            final(self).wf(),
            final(self)@ == recorded(old(self)@, blocknr, tid),
    {
        if !self.suppresses(blocknr, tid) {
            self.records.insert(blocknr, Dated { tid, value: () });
        }
    }

    /// Records what the transaction `tid` has revoked.
    pub fn record_all(&mut self, blocks: &[u64], tid: Tid)
        requires
            old(self).wf(),
        ensures
            final(self).wf(),
            final(self)@ == recorded_all(old(self)@, blocks@, tid),
    {
        let ghost before = self@;
        let mut i: usize = 0;
        assert(blocks@.take(0) =~= Seq::<u64>::empty());
        while i < blocks.len()
            invariant
                self.wf(),
                i <= blocks@.len(),
                self@ == recorded_all(before, blocks@.take(i as int), tid),
            decreases blocks.len() - i,
        {
            self.record(blocks[i], tid);
            assert(blocks@.take(i + 1).drop_last() =~= blocks@.take(i as int));
            i += 1;
        }
        assert(blocks@.take(i as int) =~= blocks@);
    }

    /// Drops the records of the transactions up to `through`.
    pub fn retire_through(&mut self, through: Tid)
        requires
            old(self).wf(),
        ensures
            final(self).wf(),
            final(self)@ == retired(old(self)@, through),
    {
        self.records.retire_through(through);
    }
}

/// Retiring the records up to `through` changes nothing for the images of
/// later transactions, as long as all ids at hand lie in one window.
pub proof fn retirement_keeps_suppression(
    records: Map<u64, Dated<()>>,
    base: Tid,
    through: Tid,
    blocknr: u64,
    tid: Tid,
)
    requires
        tid_in_window(base, through),
        tid_in_window(base, tid),
        records.dom().contains(blocknr) ==> tid_in_window(base, records[blocknr].tid),
        !tid_geq(through, tid),
    ensures
        suppressed(retired(records, through), blocknr, tid) == suppressed(records, blocknr, tid),
{
    tid_window_is_ordered(base, through, tid);
    if records.dom().contains(blocknr) {
        tid_window_is_ordered(base, through, records[blocknr].tid);
        tid_window_is_ordered(base, records[blocknr].tid, tid);
    }
}

/// A block that a transaction revoked is suppressed in that transaction, once
/// its revokes are recorded.
pub proof fn recorded_revokes_suppress(
    records: Map<u64, Dated<()>>,
    blocks: Seq<u64>,
    tid: Tid,
    i: int,
)
    requires
        0 <= i < blocks.len(),
    ensures
        suppressed(recorded_all(records, blocks, tid), blocks[i], tid),
    decreases blocks.len(),
{
    tid_order_of_neighbours(tid);
    if i < blocks.len() - 1 {
        recorded_revokes_suppress(records, blocks.drop_last(), tid, i);
    }
}

} // verus!
