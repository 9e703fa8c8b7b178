//! Transactions: the blocks they capture, the blocks they revoke, and the file
//! data that has to reach the disk before them.

use vstd::prelude::*;

use crate::bytes::{splice, write_bytes, zero_block, zeros, BLOCK_SIZE};
use crate::error::Error;
use crate::journal::blockmap::{
    entries_map, lemma_entry_in_map, occurs, place_of, BlockMap, Dated, Entry,
};
use crate::journal::descriptor::{full_blocks, images, Image};
use crate::journal::replay::restores;
use crate::journal::revoke::recorded_all;
use crate::journal::tid::Tid;

verus! {

/// File data that has to reach the disk before a transaction commits: the
/// first `len` bytes of the inode `ino`.
#[derive(Clone, Copy, Debug, PartialEq, Eq, Structural)]
pub struct OrderedData {
    pub ino: u32,
    pub len: u64,
}

/// Whether no inode occurs twice.
pub open spec fn distinct_inodes(ordered: Seq<OrderedData>) -> bool {
    forall|i: int, j: int| 0 <= i < j < ordered.len() ==> ordered[i].ino != ordered[j].ino
}

/// Whether data of an inode is registered.
pub open spec fn is_registered(ordered: Seq<OrderedData>, ino: u32) -> bool {
    exists|i: int| 0 <= i < ordered.len() && #[trigger] ordered[i].ino == ino
}

/// `after` is `before` with `data` registered, in place of what was registered of
/// the same inode.
pub open spec fn registers(
    before: Seq<OrderedData>,
    data: OrderedData,
    after: Seq<OrderedData>,
) -> bool {
    &&& !is_registered(before, data.ino) ==> after == before.push(data)
    &&& forall|i: int|
        0 <= i < before.len() && #[trigger] before[i].ino == data.ino ==> after == before.update(
            i,
            data,
        )
}

/// A transaction: what it changes is captured block by block.
pub struct Transaction {
    /// Its id.
    pub tid: Tid,
    /// The captured blocks with the content they are to have.
    pub captures: BlockMap<Box<[u8; BLOCK_SIZE]>>,
    /// The blocks it has freed, which older transactions must not restore.
    pub revokes: BlockMap<()>,
    /// The file data that has to reach the disk before it.
    pub ordered: Vec<OrderedData>,
    /// The operations that still may add to it.
    pub nr_updates: u32,
}

/// An inode is registered once, however often its data is registered, and what
/// was registered last holds. The data of other inodes stays registered.
pub proof fn registering_again_replaces(
    ordered: Seq<OrderedData>,
    first: OrderedData,
    middle: Seq<OrderedData>,
    last: OrderedData,
    after: Seq<OrderedData>,
)
    requires
        distinct_inodes(ordered),
        registers(ordered, first, middle),
        registers(middle, last, after),
        first.ino == last.ino,
    ensures
        distinct_inodes(middle),
        distinct_inodes(after),
        registers(ordered, last, after),
        after.contains(last),
        after.len() == ordered.len() + if is_registered(ordered, last.ino) {
            0int
        } else {
            1
        },
        forall|data: OrderedData|
            data.ino != last.ino ==> (after.contains(data) <==> ordered.contains(data)),
{
    if is_registered(ordered, first.ino) {
        let i = choose|i: int| 0 <= i < ordered.len() && #[trigger] ordered[i].ino == first.ino;
        assert(middle == ordered.update(i, first));
        assert(middle[i].ino == last.ino);
        assert(after =~= ordered.update(i, last));
        assert(after[i] == last);
        lemma_update_keeps(ordered, i, last);
    } else {
        let n = ordered.len() as int;
        assert(middle[n].ino == last.ino);
        assert(after =~= ordered.push(last));
        assert(after[n] == last);
        assert forall|data: OrderedData| data.ino != last.ino implies (after.contains(data)
            <==> ordered.contains(data)) by {
            if ordered.contains(data) {
                let k = choose|k: int| 0 <= k < ordered.len() && ordered[k] == data;
                assert(after[k] == data);
            }
        }
    }
}

proof fn lemma_update_keeps(ordered: Seq<OrderedData>, i: int, last: OrderedData)
    requires
        0 <= i < ordered.len(),
        ordered[i].ino == last.ino,
    ensures
        forall|data: OrderedData|
            data.ino != last.ino ==> (ordered.update(i, last).contains(data) <==> ordered.contains(
                data,
            )),
{
    let after = ordered.update(i, last);
    assert forall|data: OrderedData| data.ino != last.ino implies (after.contains(data)
        <==> ordered.contains(data)) by {
        if ordered.contains(data) {
            let k = choose|k: int| 0 <= k < ordered.len() && ordered[k] == data;
            assert(after[k] == data);
        }
        if after.contains(data) {
            let k = choose|k: int| 0 <= k < after.len() && after[k] == data;
            assert(ordered[k] == data);
        }
    }
}

/// The block numbers of a sequence of entries.
pub open spec fn keys_of<V>(entries: Seq<Entry<V>>) -> Seq<u64> {
    Seq::new(entries.len(), |i: int| entries[i].blocknr)
}

/// The contents of captured blocks, by block number.
pub open spec fn captured(captures: BlockMap<Box<[u8; BLOCK_SIZE]>>) -> Map<u64, Seq<u8>> {
    captures@.map_values(|block: Box<[u8; BLOCK_SIZE]>| (*block)@)
}

impl<V> BlockMap<V> {
    /// The block numbers, in their order.
    pub fn keys(&self) -> (keys: Vec<u64>)
        ensures
            keys@ == keys_of(self.entries@),
    {
        let mut keys: Vec<u64> = Vec::new();
        let mut i: usize = 0;
        while i < self.entries.len()
            invariant
                i <= self.entries@.len(),
                keys@ == keys_of(self.entries@).take(i as int),
            decreases self.entries.len() - i,
        {
            keys.push(self.entries[i].blocknr);
            i += 1;
            assert(keys@ =~= keys_of(self.entries@).take(i as int));
        }
        assert(keys_of(self.entries@).take(i as int) =~= keys_of(self.entries@));
        keys
    }
}

impl Transaction {
    /// Captures and revokes are sorted, no block is both captured and revoked,
    /// and the data of an inode is registered no more than once.
    pub open spec fn wf(self) -> bool {
        &&& self.captures.wf()
        &&& self.revokes.wf()
        &&& self.captures@.dom().disjoint(self.revokes@.dom())
        &&& distinct_inodes(self.ordered@)
    }

    /// The images it captured, in the order of their block numbers.
    pub open spec fn images(self) -> Seq<Image> {
        images(self.captures.entries@)
    }

    /// The blocks it has revoked, in their order.
    pub open spec fn revoked(self) -> Seq<u64> {
        keys_of(self.revokes.entries@)
    }

    /// Nothing but captures and revokes differs between two transactions.
    pub open spec fn same_frame(self, other: Self) -> bool {
        &&& self.tid == other.tid
        &&& self.ordered == other.ordered
        &&& self.nr_updates == other.nr_updates
    }

    /// Whether it can be committed: no operation is under way, and something
    /// was captured.
    pub open spec fn ready(self) -> bool {
        self.nr_updates == 0 && self.captures.entries@.len() > 0
    }

    /// An empty transaction.
    pub fn new(tid: Tid) -> (txn: Self)
        ensures
            txn.wf(),
            txn.tid == tid,
            txn.captures@ == Map::<u64, Box<[u8; BLOCK_SIZE]>>::empty(),
            txn.revokes@ == Map::<u64, ()>::empty(),
            txn.images().len() == 0,
            txn.revoked().len() == 0,
            txn.ordered@.len() == 0,
            txn.nr_updates == 0,
    {
        Transaction {
            tid,
            captures: BlockMap::new(),
            revokes: BlockMap::new(),
            ordered: Vec::new(),
            nr_updates: 0,
        }
    }

    /// Its id.
    pub fn tid(&self) -> (tid: Tid)
        ensures
            tid == self.tid,
    {
        self.tid
    }

    /// How many blocks it has captured.
    pub fn nr_metadata_blocks(&self) -> (n: usize)
        ensures
            n == self.captures.entries@.len(),
    {
        self.captures.len()
    }

    /// How many operations still may add to it.
    pub fn nr_updates(&self) -> (n: u32)
        ensures
            n == self.nr_updates,
    {
        self.nr_updates
    }

    /// Whether it can be committed.
    pub fn is_ready(&self) -> (r: bool)
        ensures
            r == self.ready(),
    {
        self.nr_updates == 0 && self.captures.len() > 0
    }

    /// Lets one more operation add to it.
    pub fn open_update(&mut self)
        requires
            old(self).wf(),
            old(self).nr_updates < u32::MAX,
        ensures
            final(self).wf(),
            final(self).nr_updates == old(self).nr_updates + 1,
            final(self).tid == old(self).tid,
            final(self).captures == old(self).captures,
            final(self).revokes == old(self).revokes,
            final(self).ordered == old(self).ordered,
    {
        self.nr_updates = self.nr_updates + 1;
    }

    /// Ends an operation that could add to it.
    pub fn close_update(&mut self)
        requires
            old(self).wf(),
            old(self).nr_updates > 0,
        ensures
            final(self).wf(),
            final(self).nr_updates == old(self).nr_updates - 1,
            final(self).tid == old(self).tid,
            final(self).captures == old(self).captures,
            final(self).revokes == old(self).revokes,
            final(self).ordered == old(self).ordered,
    {
        self.nr_updates = self.nr_updates - 1;
    }

    /// How many inodes have data that has to reach the disk first.
    pub fn nr_ordered_data(&self) -> (n: usize)
        ensures
            n == self.ordered@.len(),
    {
        self.ordered.len()
    }

    /// Registers file data that has to reach the disk first. Data of the same
    /// inode that was registered before is replaced.
    pub fn register_ordered_data(&mut self, data: OrderedData)
        requires
            old(self).wf(),
        ensures
            final(self).wf(),
            registers(old(self).ordered@, data, final(self).ordered@),
            final(self).tid == old(self).tid,
            final(self).captures == old(self).captures,
            final(self).revokes == old(self).revokes,
            final(self).nr_updates == old(self).nr_updates,
    {
        let mut i: usize = 0;
        while i < self.ordered.len()
            invariant
                *self == *old(self),
                self.wf(),
                i <= self.ordered@.len(),
                forall|j: int| 0 <= j < i ==> self.ordered@[j].ino != data.ino,
            decreases self.ordered.len() - i,
        {
            if self.ordered[i].ino == data.ino {
                self.ordered[i] = data;
                assert(distinct_inodes(self.ordered@));
                return;
            }
            i += 1;
        }
        self.ordered.push(data);
        assert(distinct_inodes(self.ordered@));
    }

    /// Captures a block with this content, in place of what was captured of
    /// it. A revoke of the block is cancelled: the block is in use again.
    pub fn capture(&mut self, blocknr: u64, bytes: [u8; BLOCK_SIZE])
        requires
            old(self).wf(),
        ensures
            final(self).wf(),
            final(self).same_frame(*old(self)),
            captured(final(self).captures) == captured(old(self).captures).insert(blocknr, bytes@),
            final(self).revokes@ == old(self).revokes@.remove(blocknr),
    {
        self.captures.insert(blocknr, Box::new(bytes));
        self.revokes.remove(blocknr);
        assert(captured(self.captures) =~= captured(old(self).captures).insert(blocknr, bytes@));
        assert(self.captures@.dom().disjoint(self.revokes@.dom()));
    }

    /// Captures a newly allocated block: all zeros.
    pub fn capture_create(&mut self, blocknr: u64)
        requires
            old(self).wf(),
        ensures
            final(self).wf(),
            final(self).same_frame(*old(self)),
            captured(final(self).captures) == captured(old(self).captures).insert(
                blocknr,
                zeros(BLOCK_SIZE as nat),
            ),
            final(self).revokes@ == old(self).revokes@.remove(blocknr),
    {
        self.capture(blocknr, zero_block());
    }

    /// What was captured of a block.
    pub fn buffer_bytes(&self, blocknr: u64) -> (r: Option<&[u8; BLOCK_SIZE]>)
        requires
            self.wf(),
        ensures
            r is Some <==> captured(self.captures).dom().contains(blocknr),
            r matches Some(bytes) ==> bytes@ == captured(self.captures)[blocknr],
    {
        match self.captures.get(blocknr) {
            Some(bytes) => Some(&**bytes),
            None => None,
        }
    }

    /// Overwrites a part of a captured block.
    pub fn apply_patch(&mut self, blocknr: u64, offset: usize, bytes: &[u8]) -> (r: Result<
        (),
        Error,
    >)
        requires
            old(self).wf(),
            offset + bytes@.len() <= BLOCK_SIZE,
        ensures
            final(self).wf(),
            final(self).same_frame(*old(self)),
            final(self).revokes == old(self).revokes,
            r is Ok <==> captured(old(self).captures).dom().contains(blocknr),
            r matches Err(e) ==> e == Error::NotCaptured && *final(self) == *old(self),
            r is Ok ==> captured(final(self).captures) == captured(old(self).captures).insert(
                blocknr,
                splice(captured(old(self).captures)[blocknr], offset as int, bytes@),
            ),
    {
        let mut block = match self.captures.get(blocknr) {
            Some(block) => **block,
            None => {
                return Err(Error::NotCaptured);
            },
        };
        write_bytes(&mut block, offset, bytes);
        self.captures.insert(blocknr, Box::new(block));
        assert(captured(self.captures) =~= captured(old(self).captures).insert(blocknr, block@));
        assert(self.captures@.dom() =~= old(self).captures@.dom());
        Ok(())
    }

    /// Revokes a block that it frees: what it captured of the block is void,
    /// and older transactions must not restore it.
    pub fn forget_block(&mut self, blocknr: u64)
        requires
            old(self).wf(),
        ensures
            final(self).wf(),
            final(self).same_frame(*old(self)),
            final(self).captures@ == old(self).captures@.remove(blocknr),
            final(self).revokes@ == old(self).revokes@.insert(blocknr, ()),
    {
        self.captures.remove(blocknr);
        self.revokes.insert(blocknr, ());
        assert(self.captures@.dom().disjoint(self.revokes@.dom()));
    }

    /// Adds the blocks it has revoked to `blocks`.
    pub fn collect_unpublished_revokes(&self, blocks: &mut BlockMap<()>)
        requires
            self.wf(),
            old(blocks).wf(),
        ensures
            final(blocks).wf(),
            final(blocks)@.dom() == old(blocks)@.dom().union(self.revokes@.dom()),
    {
        let keys = self.revokes.keys();
        add_all(blocks, &keys);
        proof {
            lemma_keys(self.revokes.entries@);
            assert(blocks@.dom() =~= old(blocks)@.dom().union(self.revokes@.dom()));
        }
    }
}

/// Adds block numbers to a set.
pub fn add_all(blocks: &mut BlockMap<()>, keys: &[u64])
    requires
        old(blocks).wf(),
    ensures
        final(blocks).wf(),
        final(blocks)@.dom() == old(blocks)@.dom().union(keys@.to_set()),
{
    let ghost before = blocks@.dom();
    let mut i: usize = 0;
    assert(keys@.take(0).to_set() =~= Set::empty());
    assert(before.union(Set::empty()) =~= before);
    while i < keys.len()
        invariant
            blocks.wf(),
            i <= keys@.len(),
            blocks@.dom() == before.union(keys@.take(i as int).to_set()),
        decreases keys.len() - i,
    {
        blocks.insert(keys[i], ());
        proof {
            let next = keys@.take(i + 1);
            assert(next =~= keys@.take(i as int).push(keys@[i as int]));
            assert forall|k: u64| next.to_set().contains(k) <==> (keys@.take(
                i as int,
            ).to_set().contains(k) || k == keys@[i as int]) by {
                if next.contains(k) {
                    let j = choose|j: int| 0 <= j < next.len() && next[j] == k;
                    if j < i {
                        assert(keys@.take(i as int)[j] == k);
                    }
                }
                if keys@.take(i as int).contains(k) {
                    let j = choose|j: int| 0 <= j < i && keys@.take(i as int)[j] == k;
                    assert(next[j] == k);
                }
                assert(next[i as int] == keys@[i as int]);
            }
            assert(blocks@.dom() =~= before.union(next.to_set()));
        }
        i += 1;
    }
    assert(keys@.take(i as int) =~= keys@);
}

/// The keys of a sorted sequence are those of its map.
pub proof fn lemma_keys<V>(entries: Seq<Entry<V>>)
    ensures
        keys_of(entries).to_set() =~= entries_map(entries).dom(),
{
    assert forall|k: u64| keys_of(entries).contains(k) <==> occurs(entries, k) by {
        if keys_of(entries).contains(k) {
            let i = choose|i: int| 0 <= i < entries.len() && keys_of(entries)[i] == k;
            assert(place_of(entries, k, i));
        }
        if occurs(entries, k) {
            let i = choose|i: int| place_of(entries, k, i);
            assert(keys_of(entries)[i] == k);
        }
    }
}

/// A transaction's captures are blocks.
pub proof fn lemma_images_are_full(txn: Transaction)
    ensures
        full_blocks(txn.images()),
{
}

proof fn lemma_recorded_elsewhere(
    records: Map<u64, Dated<()>>,
    blocks: Seq<u64>,
    tid: Tid,
    blocknr: u64,
)
    requires
        !blocks.contains(blocknr),
    ensures
        recorded_all(records, blocks, tid).dom().contains(blocknr) == records.dom().contains(
            blocknr,
        ),
        records.dom().contains(blocknr) ==> recorded_all(records, blocks, tid)[blocknr]
            == records[blocknr],
    decreases blocks.len(),
{
    if blocks.len() > 0 {
        let rest = blocks.drop_last();
        assert(!rest.contains(blocknr)) by {
            if rest.contains(blocknr) {
                let i = choose|i: int| 0 <= i < rest.len() && rest[i] == blocknr;
                assert(blocks[i] == blocknr);
            }
        }
        assert(blocks[blocks.len() - 1] != blocknr);
        lemma_recorded_elsewhere(records, rest, tid, blocknr);
    }
}

proof fn lemma_restores_elsewhere(
    records: Map<u64, Dated<()>>,
    blocks: Seq<u64>,
    tid: Tid,
    caps: Seq<Image>,
)
    requires
        forall|i: int| 0 <= i < caps.len() ==> !blocks.contains(#[trigger] caps[i].blocknr),
    ensures
        restores(recorded_all(records, blocks, tid), tid, caps) == restores(records, tid, caps),
    decreases caps.len(),
{
    if caps.len() > 0 {
        lemma_recorded_elsewhere(records, blocks, tid, caps[0].blocknr);
        assert forall|i: int| 0 <= i < caps.skip(1).len() implies !blocks.contains(
            #[trigger] caps.skip(1)[i].blocknr,
        ) by {
            assert(caps.skip(1)[i] == caps[i + 1]);
        }
        lemma_restores_elsewhere(records, blocks, tid, caps.skip(1));
    }
}

/// A transaction's own revokes never suppress its own images: publishing them
/// leaves what it restores as it was.
pub proof fn own_revokes_spare_own_images(txn: Transaction, records: Map<u64, Dated<()>>)
    requires
        txn.wf(),
    ensures
        restores(recorded_all(records, txn.revoked(), txn.tid), txn.tid, txn.images()) == restores(
            records,
            txn.tid,
            txn.images(),
        ),
{
    let caps = txn.images();
    lemma_keys(txn.revokes.entries@);
    assert forall|i: int| 0 <= i < caps.len() implies !txn.revoked().contains(
        #[trigger] caps[i].blocknr,
    ) by {
        let entries = txn.captures.entries@;
        lemma_entry_in_map(entries, i);
        assert(txn.captures@.dom().contains(caps[i].blocknr));
        if txn.revoked().contains(caps[i].blocknr) {
            assert(txn.revoked().to_set().contains(caps[i].blocknr));
            assert(txn.revokes@.dom().contains(caps[i].blocknr));
        }
    }
    lemma_restores_elsewhere(records, txn.revoked(), txn.tid, caps);
}

} // verus!
