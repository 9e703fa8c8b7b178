//! A map keyed by block numbers, kept sorted by them.

use vstd::prelude::*;

use crate::journal::tid::{tid_geq, Tid};

verus! {

/// One entry of a [`BlockMap`].
pub struct Entry<V> {
    pub blocknr: u64,
    pub value: V,
}

/// A map from block numbers, as a sequence sorted by block number.
pub struct BlockMap<V> {
    pub entries: Vec<Entry<V>>,
}

/// The block numbers of a sequence of entries grow.
pub open spec fn increasing<V>(entries: Seq<Entry<V>>) -> bool {
    forall|i: int, j: int|
        0 <= i < j < entries.len() ==> (#[trigger] entries[i]).blocknr < (
        #[trigger] entries[j]).blocknr
}

/// `i` is the place of `key` in a sequence of entries.
pub open spec fn place_of<V>(entries: Seq<Entry<V>>, key: u64, i: int) -> bool {
    0 <= i < entries.len() && entries[i].blocknr == key
}

/// Whether `key` occurs in a sequence of entries.
pub open spec fn occurs<V>(entries: Seq<Entry<V>>, key: u64) -> bool {
    exists|i: int| #[trigger] place_of(entries, key, i)
}

/// The map that a sequence of entries stands for.
pub open spec fn entries_map<V>(entries: Seq<Entry<V>>) -> Map<u64, V> {
    Map::new(
        |key: u64| occurs(entries, key),
        |key: u64| entries[choose|i: int| place_of(entries, key, i)].value,
    )
}

/// The map holds each entry of a sorted sequence.
pub proof fn lemma_entry_in_map<V>(entries: Seq<Entry<V>>, i: int)
    requires
        increasing(entries),
        0 <= i < entries.len(),
    ensures
        entries_map(entries).dom().contains(entries[i].blocknr),
        entries_map(entries)[entries[i].blocknr] == entries[i].value,
{
    let key = entries[i].blocknr;
    assert(place_of(entries, key, i));
    let j = choose|j: int| place_of(entries, key, j);
    if i < j {
        assert(entries[i].blocknr < entries[j].blocknr);
    } else if j < i {
        assert(entries[j].blocknr < entries[i].blocknr);
    }
}

/// An entry that goes to the place where its key belongs goes into the map.
proof fn lemma_insert_at<V>(entries: Seq<Entry<V>>, at: int, key: u64, value: V)
    requires
        increasing(entries),
        0 <= at <= entries.len(),
        forall|i: int| 0 <= i < at ==> (#[trigger] entries[i]).blocknr < key,
        forall|i: int| at <= i < entries.len() ==> key < (#[trigger] entries[i]).blocknr,
    ensures
        increasing(entries.insert(at, Entry { blocknr: key, value })),
        entries_map(entries.insert(at, Entry { blocknr: key, value })) == entries_map(
            entries,
        ).insert(key, value),
{
    let new = entries.insert(at, Entry { blocknr: key, value });
    assert forall|i: int, j: int| 0 <= i < j < new.len() implies (#[trigger] new[i]).blocknr < (
    #[trigger] new[j]).blocknr by {
        if i < at && j > at {
            assert(entries[i].blocknr < entries[j - 1].blocknr);
        }
        if i > at {
            assert(entries[i - 1].blocknr < entries[j - 1].blocknr);
        }
    }
    let a = entries_map(new);
    let b = entries_map(entries).insert(key, value);
    assert forall|k: u64| a.dom().contains(k) <==> #[trigger] b.dom().contains(k) by {
        if a.dom().contains(k) {
            let i = choose|i: int| place_of(new, k, i);
            if i < at {
                assert(place_of(entries, k, i));
            } else if i > at {
                assert(place_of(entries, k, i - 1));
            }
        }
        if b.dom().contains(k) {
            if k == key {
                assert(place_of(new, k, at));
            } else {
                let i = choose|i: int| place_of(entries, k, i);
                if i < at {
                    assert(place_of(new, k, i));
                } else {
                    assert(place_of(new, k, i + 1));
                }
            }
        }
    }
    assert forall|k: u64| a.dom().contains(k) implies #[trigger] a[k] == b[k] by {
        let i = choose|i: int| place_of(new, k, i);
        lemma_entry_in_map(new, i);
        if i < at {
            lemma_entry_in_map(entries, i);
        } else if i > at {
            lemma_entry_in_map(entries, i - 1);
        }
    }
    assert(a =~= b);
}

proof fn lemma_update_at<V>(entries: Seq<Entry<V>>, at: int, value: V)
    requires
        increasing(entries),
        0 <= at < entries.len(),
    ensures
        increasing(entries.update(at, Entry { blocknr: entries[at].blocknr, value })),
        entries_map(entries.update(at, Entry { blocknr: entries[at].blocknr, value }))
            == entries_map(entries).insert(entries[at].blocknr, value),
{
    let key = entries[at].blocknr;
    let new = entries.update(at, Entry { blocknr: key, value });
    let a = entries_map(new);
    let b = entries_map(entries).insert(key, value);
    assert forall|k: u64| a.dom().contains(k) <==> #[trigger] b.dom().contains(k) by {
        if a.dom().contains(k) {
            let i = choose|i: int| place_of(new, k, i);
            assert(place_of(entries, k, i));
        }
        if b.dom().contains(k) {
            if k == key {
                assert(place_of(new, k, at));
            } else {
                let i = choose|i: int| place_of(entries, k, i);
                assert(place_of(new, k, i));
            }
        }
    }
    assert forall|k: u64| a.dom().contains(k) implies #[trigger] a[k] == b[k] by {
        let i = choose|i: int| place_of(new, k, i);
        lemma_entry_in_map(new, i);
        if i != at {
            lemma_entry_in_map(entries, i);
        }
    }
    assert(a =~= b);
}

proof fn lemma_remove_at<V>(entries: Seq<Entry<V>>, at: int)
    requires
        increasing(entries),
        0 <= at < entries.len(),
    ensures
        increasing(entries.remove(at)),
        entries_map(entries.remove(at)) == entries_map(entries).remove(entries[at].blocknr),
{
    let key = entries[at].blocknr;
    let new = entries.remove(at);
    let a = entries_map(new);
    let b = entries_map(entries).remove(key);
    assert forall|k: u64| a.dom().contains(k) <==> #[trigger] b.dom().contains(k) by {
        if a.dom().contains(k) {
            let i = choose|i: int| place_of(new, k, i);
            let j = if i < at {
                i
            } else {
                i + 1
            };
            assert(place_of(entries, k, j));
            assert(k != key);
        }
        if b.dom().contains(k) {
            let i = choose|i: int| place_of(entries, k, i);
            if i < at {
                assert(place_of(new, k, i));
            } else {
                assert(place_of(new, k, i - 1));
            }
        }
    }
    assert forall|k: u64| a.dom().contains(k) implies #[trigger] a[k] == b[k] by {
        let i = choose|i: int| place_of(new, k, i);
        lemma_entry_in_map(new, i);
        if i < at {
            lemma_entry_in_map(entries, i);
        } else {
            lemma_entry_in_map(entries, i + 1);
        }
    }
    assert(a =~= b);
}

impl<V> View for BlockMap<V> {
    type V = Map<u64, V>;

    open spec fn view(&self) -> Map<u64, V> {
        entries_map(self.entries@)
    }
}

impl<V> BlockMap<V> {
    /// The entries are sorted, and no block number occurs twice.
    pub open spec fn wf(self) -> bool {
        increasing(self.entries@)
    }

    /// An empty map.
    pub fn new() -> (map: Self)
        ensures
            map.wf(),
            map@ == Map::<u64, V>::empty(),
            map.entries@.len() == 0,
    {
        let map = BlockMap { entries: Vec::new() };
        assert(map@ =~= Map::<u64, V>::empty());
        map
    }

    /// The number of entries.
    pub fn len(&self) -> (n: usize)
        ensures
            n == self.entries@.len(),
    {
        self.entries.len()
    }

    /// Whether there is no entry.
    pub fn is_empty(&self) -> (r: bool)
        requires
            self.wf(),
        ensures
            r == (self@.dom() == Set::<u64>::empty()),
    {
        proof {
            if self.entries@.len() == 0 {
                assert(self@.dom() =~= Set::<u64>::empty());
            } else {
                lemma_entry_in_map(self.entries@, 0);
            }
        }
        self.entries.len() == 0
    }

    /// Finds the place of `key`, or the place where it belongs.
    pub fn find(&self, key: u64) -> (r: Result<usize, usize>)
        requires
            self.wf(),
        ensures
            r is Ok <==> self@.dom().contains(key),
            r matches Ok(i) ==> i < self.entries@.len() && self.entries@[i as int].blocknr == key
                && self@[key] == self.entries@[i as int].value,
            r matches Err(i) ==> {
                &&& i <= self.entries@.len()
                &&& forall|k: int| 0 <= k < i ==> (#[trigger] self.entries@[k]).blocknr < key
                &&& forall|k: int|
                    i <= k < self.entries@.len() ==> key < (#[trigger] self.entries@[k]).blocknr
            },
    {
        let mut low: usize = 0;
        let mut high: usize = self.entries.len();
        while low < high
            invariant
                self.wf(),
                low <= high <= self.entries@.len(),
                forall|k: int| 0 <= k < low ==> (#[trigger] self.entries@[k]).blocknr < key,
                forall|k: int|
                    high <= k < self.entries@.len() ==> key < (#[trigger] self.entries@[k]).blocknr,
            decreases high - low,
        {
            let mid: usize = low + (high - low) / 2;
            let found: u64 = self.entries[mid].blocknr;
            if found == key {
                proof {
                    lemma_entry_in_map(self.entries@, mid as int);
                }
                return Ok(mid);
            } else if found < key {
                low = mid + 1;
            } else {
                high = mid;
            }
        }
        assert(!self@.dom().contains(key)) by {
            if occurs(self.entries@, key) {
                let i = choose|i: int| place_of(self.entries@, key, i);
                assert(self.entries@[i].blocknr == key);
            }
        }
        Err(low)
    }

    /// Whether `key` is in the map.
    pub fn contains(&self, key: u64) -> (r: bool)
        requires
            self.wf(),
        ensures
            r == self@.dom().contains(key),
    {
        match self.find(key) {
            Ok(_) => true,
            Err(_) => false,
        }
    }

    /// What the map holds under `key`.
    pub fn get(&self, key: u64) -> (r: Option<&V>)
        requires
            self.wf(),
        ensures
            r is Some <==> self@.dom().contains(key),
            r matches Some(v) ==> *v == self@[key],
    {
        match self.find(key) {
            Ok(i) => Some(&self.entries[i].value),
            Err(_) => None,
        }
    }

    /// Puts `value` under `key`, in place of what was there.
    pub fn insert(&mut self, key: u64, value: V)
        requires
            old(self).wf(),
        ensures
            final(self).wf(),
            final(self)@ == old(self)@.insert(key, value),
    {
        match self.find(key) {
            Ok(i) => {
                proof {
                    lemma_update_at(self.entries@, i as int, value);
                }
                self.entries.set(i, Entry { blocknr: key, value });
            },
            Err(i) => {
                proof {
                    lemma_insert_at(self.entries@, i as int, key, value);
                }
                self.entries.insert(i, Entry { blocknr: key, value });
            },
        }
    }

    /// Takes what is under `key` out of the map.
    pub fn remove(&mut self, key: u64)
        requires
            old(self).wf(),
        ensures
            final(self).wf(),
            final(self)@ == old(self)@.remove(key),
    {
        match self.find(key) {
            Ok(i) => {
                proof {
                    lemma_remove_at(self.entries@, i as int);
                }
                let _ = self.entries.remove(i);
            },
            Err(_) => {
                assert(self@.remove(key) =~= self@);
            },
        }
    }
}

/// A value with the transaction that it comes from.
pub struct Dated<V> {
    pub tid: Tid,
    pub value: V,
}

/// What is left of a map without the values of the transactions up to
/// `through`.
pub open spec fn retired<V>(map: Map<u64, Dated<V>>, through: Tid) -> Map<u64, Dated<V>> {
    map.restrict(Set::new(|key: u64| map.dom().contains(key) && !tid_geq(through, map[key].tid)))
}

impl<V> BlockMap<Dated<V>> {
    /// Drops the values of the transactions up to `through`.
    pub fn retire_through(&mut self, through: Tid)
        requires
            old(self).wf(),
        ensures
            final(self).wf(),
            final(self)@ == retired(old(self)@, through),
    {
        let ghost all = self@;
        let mut i: usize = 0;
        while i < self.entries.len()
            invariant
                self.wf(),
                i <= self.entries@.len(),
                forall|k: int|
                    0 <= k < i ==> !tid_geq(through, (#[trigger] self.entries@[k]).value.tid),
                retired(self@, through) == retired(all, through),
            decreases self.entries@.len() - i,
        {
            if through.geq(self.entries[i].value.tid) {
                proof {
                    lemma_entry_in_map(self.entries@, i as int);
                    lemma_remove_at(self.entries@, i as int);
                    let key = self.entries@[i as int].blocknr;
                    assert(retired(self@.remove(key), through) =~= retired(self@, through));
                }
                let _ = self.entries.remove(i);
            } else {
                i += 1;
            }
        }
        proof {
            assert forall|key: u64| self@.dom().contains(key) implies !tid_geq(
                through,
                #[trigger] self@[key].tid,
            ) by {
                let k = choose|k: int| place_of(self.entries@, key, k);
                lemma_entry_in_map(self.entries@, k);
            }
            assert(retired(self@, through) =~= self@);
        }
    }
}

} // verus!
