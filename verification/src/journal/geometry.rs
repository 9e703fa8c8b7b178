//! The geometry of the log: finding the journal, mapping its blocks, and the
//! arithmetic of its ring.

use vstd::prelude::*;

use crate::bytes::{be32_at, BLOCK_SIZE};
use crate::error::Error;
use crate::journal::format::{JournalCsumSeed, BLOCKTYPE_SUPERBLOCK_V2, INCOMPAT_SUPP};
use crate::journal::superblock::{
    superblock_content, superblock_fault, JournalSuperblock, RawJournalSuperblock, H_BLOCKTYPE,
    S_FEATURE_INCOMPAT, S_FEATURE_RO_COMPAT,
};
use crate::journal::tag::TagLayout;
use crate::journal::tid::Tid;

verus! {

/// The inode that is reserved for the journal.
pub const JOURNAL_INO: u32 = 8;

/// The log block after `cur` in the ring `[first, maxlen)`.
pub open spec fn ring_next(sb: JournalSuperblock, cur: int) -> int {
    if cur + 1 >= sb.maxlen {
        sb.first as int
    } else {
        cur + 1
    }
}

/// The log block `n` steps after `pos`.
pub open spec fn ring_advance(sb: JournalSuperblock, pos: int, n: nat) -> int
    decreases n,
{
    if n == 0 {
        pos
    } else {
        ring_next(sb, ring_advance(sb, pos, (n - 1) as nat))
    }
}

/// Whether `pos` is a position in the ring.
pub open spec fn in_ring(sb: JournalSuperblock, pos: int) -> bool {
    sb.first <= pos < sb.maxlen
}

/// The number of blocks in the ring.
pub open spec fn ring_size(sb: JournalSuperblock) -> int {
    sb.maxlen - sb.first
}

/// How many blocks from `tail` on are in use when the log goes on at `head`. A
/// log that is in use is not empty, so a head at the tail means a full ring.
pub open spec fn ring_used(sb: JournalSuperblock, head: int, tail: int) -> int {
    if head == tail {
        ring_size(sb)
    } else {
        (head - tail) % ring_size(sb)
    }
}

/// How many blocks from `head` on are free.
pub open spec fn ring_free(sb: JournalSuperblock, head: int, tail: Option<u32>) -> int {
    match tail {
        None => ring_size(sb),
        Some(tail) => ring_size(sb) - ring_used(sb, head, tail as int),
    }
}

/// Stepping through the ring is counting modulo its size.
pub proof fn ring_advance_is_modular(sb: JournalSuperblock, pos: int, n: nat)
    requires
        sb.wf(),
        in_ring(sb, pos),
    ensures
        ring_advance(sb, pos, n) == sb.first + (pos - sb.first + n) % ring_size(sb),
        in_ring(sb, ring_advance(sb, pos, n)),
    decreases n,
{
    let m = ring_size(sb);
    if n == 0 {
        vstd::arithmetic::div_mod::lemma_small_mod((pos - sb.first) as nat, m as nat);
    } else {
        let k = (n - 1) as nat;
        ring_advance_is_modular(sb, pos, k);
        let x = pos - sb.first + k;
        let r = x % m;
        vstd::arithmetic::div_mod::lemma_fundamental_div_mod(x, m);
        if r + 1 == m {
            assert(x + 1 == m * (x / m + 1) + 0) by (nonlinear_arith)
                requires
                    x == m * (x / m) + r,
                    r + 1 == m,
            ;
            vstd::arithmetic::div_mod::lemma_fundamental_div_mod_converse(x + 1, m, x / m + 1, 0);
        } else {
            vstd::arithmetic::div_mod::lemma_fundamental_div_mod_converse(x + 1, m, x / m, r + 1);
        }
    }
}

/// Steps add up.
pub proof fn ring_advance_adds(sb: JournalSuperblock, pos: int, a: nat, b: nat)
    ensures
        ring_advance(sb, ring_advance(sb, pos, a), b) == ring_advance(sb, pos, a + b),
    decreases b,
{
    if b > 0 {
        ring_advance_adds(sb, pos, a, (b - 1) as nat);
    }
}

proof fn lemma_mod_eq(x: int, y: int, m: int)
    requires
        m > 0,
        x % m == y % m,
    ensures
        exists|q: int| #[trigger] (q * m) == x - y,
{
    vstd::arithmetic::div_mod::lemma_fundamental_div_mod(x, m);
    vstd::arithmetic::div_mod::lemma_fundamental_div_mod(y, m);
    let q = x / m - y / m;
    assert(q * m == x - y) by (nonlinear_arith)
        requires
            x == m * (x / m) + x % m,
            y == m * (y / m) + y % m,
            x % m == y % m,
            q == x / m - y / m,
    ;
}

/// A commit that fits the free part of the ring writes to no block that is in
/// use: the blocks from `tail` up to `head` stay as they are.
pub proof fn fitting_commit_spares_the_tail(
    sb: JournalSuperblock,
    head: u32,
    tail: u32,
    written: nat,
    used: nat,
)
    requires
        sb.wf(),
        in_ring(sb, head as int),
        in_ring(sb, tail as int),
        written < ring_free(sb, head as int, Some(tail)),
        used < ring_used(sb, head as int, tail as int),
    ensures
        ring_advance(sb, head as int, written) != ring_advance(sb, tail as int, used),
{
    let m = ring_size(sb);
    ring_advance_is_modular(sb, head as int, written);
    ring_advance_is_modular(sb, tail as int, used);
    let x = head - sb.first + written;
    let y = tail - sb.first + used;
    if head != tail {
        if x % m == y % m {
            lemma_mod_eq(x, y, m);
            let q = choose|q: int| #[trigger] (q * m) == x - y;
            let d = head - tail;
            let r = d % m;
            vstd::arithmetic::div_mod::lemma_fundamental_div_mod(d, m);
            // x - y == d + written - used, and d == m * (d / m) + r, with
            // 0 < r + written - used < m.
            assert(false) by (nonlinear_arith)
                requires
                    q * m == d + written - used,
                    d == m * (d / m) + r,
                    0 <= written < m - r,
                    0 <= used < r,
                    m > 0,
            {
                let k = q - d / m;
                assert(k * m == r + written - used) by (nonlinear_arith)
                    requires
                        q * m == d + written - used,
                        d == m * (d / m) + r,
                        k == q - d / m,
                ;
                assert(0 < k * m < m);
                assert(k > 0 ==> k * m >= m) by (nonlinear_arith)
                    requires
                        m > 0,
                ;
                assert(k <= 0 ==> k * m <= 0) by (nonlinear_arith)
                    requires
                        m > 0,
                ;
            }
        }
    }
}

/// The blocks that one commit writes are distinct, when it fits the ring.
pub proof fn ring_positions_are_distinct(sb: JournalSuperblock, pos: int, i: nat, j: nat)
    requires
        sb.wf(),
        in_ring(sb, pos),
        i < j < i + ring_size(sb),
    ensures
        ring_advance(sb, pos, i) != ring_advance(sb, pos, j),
{
    let m = ring_size(sb);
    ring_advance_is_modular(sb, pos, i);
    ring_advance_is_modular(sb, pos, j);
    let x = pos - sb.first + j;
    let y = pos - sb.first + i;
    if x % m == y % m {
        lemma_mod_eq(x, y, m);
        let q = choose|q: int| #[trigger] (q * m) == x - y;
        assert(false) by (nonlinear_arith)
            requires
                q * m == j - i,
                0 < j - i < m,
                m > 0,
        {
            assert(q > 0 ==> q * m >= m) by (nonlinear_arith)
                requires
                    m > 0,
            ;
            assert(q <= 0 ==> q * m <= 0) by (nonlinear_arith)
                requires
                    m > 0,
            ;
        }
    }
}

/// What the filesystem's own superblock says of the journal.
#[derive(Clone, Copy, Debug, PartialEq, Eq, Structural)]
pub struct JournalLocation {
    /// The filesystem has a journal.
    pub has_journal: bool,
    /// The inode that holds it.
    pub journal_ino: u32,
    /// The device that holds it, or zero.
    pub journal_dev: u32,
}

/// The first thing that is wrong with where a journal is.
pub open spec fn location_fault(location: JournalLocation) -> Option<Error> {
    if location.journal_ino != JOURNAL_INO {
        Some(Error::UnsupportedJournalInode)
    } else if location.journal_dev != 0 {
        Some(Error::ExternalJournal)
    } else {
        None
    }
}

/// Finds the journal: gives the inode to read, or nothing where the filesystem
/// has no journal.
pub fn locate_journal(location: JournalLocation) -> (r: Result<Option<u32>, Error>)
    ensures
        !location.has_journal ==> r == Ok::<Option<u32>, Error>(None),
        location.has_journal ==> match location_fault(location) {
            Some(e) => r == Err::<Option<u32>, Error>(e),
            None => r == Ok::<Option<u32>, Error>(Some(JOURNAL_INO)),
        },
{
    if !location.has_journal {
        return Ok(None);
    }
    if location.journal_ino != JOURNAL_INO {
        return Err(Error::UnsupportedJournalInode);
    }
    if location.journal_dev != 0 {
        return Err(Error::ExternalJournal);
    }
    Ok(Some(JOURNAL_INO))
}

/// What the extent tree says of the blocks from a logical block on.
#[derive(Clone, Copy, Debug, PartialEq, Eq, Structural)]
pub enum Mapping {
    /// No block for `len` logical blocks.
    Hole { len: u32 },
    /// `len` consecutive blocks from `pblock` on.
    Mapped { pblock: u64, len: u32, written: bool },
}

/// The blocks that `size` bytes take.
pub open spec fn blocks_of(size: u64) -> int {
    (size + BLOCK_SIZE - 1) / (BLOCK_SIZE as int)
}

/// Maps the blocks of the journal inode, run by run.
pub struct BlockMapper {
    pub nblocks: u32,
    pub map: Vec<u64>,
}

impl BlockMapper {
    /// No more blocks are mapped than there are.
    pub open spec fn wf(self) -> bool {
        self.map@.len() <= self.nblocks
    }

    /// Starts on an inode of `size` bytes.
    pub fn start(extent_based: bool, size: u64) -> (r: Result<Self, Error>)
        ensures
            r is Ok <==> extent_based && 2 <= blocks_of(size) <= u32::MAX,
            r matches Err(e) ==> e == (if !extent_based {
                Error::JournalNotExtents
            } else if blocks_of(size) > u32::MAX {
                Error::JournalInodeTooLarge
            } else {
                Error::JournalInodeTooSmall
            }),
            r matches Ok(m) ==> m.wf() && m.nblocks == blocks_of(size) && m.map@.len() == 0,
    {
        if !extent_based {
            return Err(Error::JournalNotExtents);
        }
        let block_size: u64 = BLOCK_SIZE as u64;
        let whole: u64 = size / block_size;
        let nblocks: u64 = if size % block_size == 0 {
            whole
        } else {
            whole + 1
        };
        if nblocks > u32::MAX as u64 {
            return Err(Error::JournalInodeTooLarge);
        }
        if nblocks < 2 {
            return Err(Error::JournalInodeTooSmall);
        }
        Ok(BlockMapper { nblocks: nblocks as u32, map: Vec::new() })
    }

    /// The logical block whose mapping is wanted next, or nothing when all are
    /// mapped.
    pub fn wanted(&self) -> (r: Option<u32>)
        requires
            self.wf(),
        ensures
            r == (if self.map@.len() < self.nblocks {
                Some(self.map@.len() as u32)
            } else {
                None
            }),
    {
        if self.map.len() < self.nblocks as usize {
            Some(self.map.len() as u32)
        } else {
            None
        }
    }

    /// Takes the mapping of the block that was wanted. A block of the journal
    /// that is a hole or was never written is an error.
    pub fn on_mapping(&mut self, mapping: Mapping) -> (r: Result<(), Error>)
        requires
            old(self).wf(),
            mapping matches Mapping::Mapped { pblock, len, .. } ==> pblock + len <= u64::MAX,
        ensures
            final(self).wf(),
            final(self).nblocks == old(self).nblocks,
            match mapping {
                Mapping::Mapped { pblock, len, written: true } => {
                    let left = old(self).nblocks - old(self).map@.len();
                    let run = if len <= left {
                        len as int
                    } else {
                        left
                    };
                    r is Ok && final(self).map@ == old(self).map@ + Seq::new(
                        run as nat,
                        |k: int| (pblock + k) as u64,
                    )
                },
                _ => r == Err::<(), Error>(Error::JournalUnmappedBlock) && final(self).map@
                    == old(self).map@,
            },
    {
        match mapping {
            Mapping::Mapped { pblock, len, written: true } => {
                let ghost before = self.map@;
                let left: u32 = self.nblocks - self.map.len() as u32;
                let run: u32 = if len <= left {
                    len
                } else {
                    left
                };
                let mut k: u32 = 0;
                assert(self.map@ =~= before + Seq::new(0, |k: int| (pblock + k) as u64));
                while k < run
                    invariant
                        k <= run <= len,
                        pblock + len <= u64::MAX,
                        self.nblocks == old(self).nblocks,
                        before.len() + run <= self.nblocks,
                        self.map@ == before + Seq::new(k as nat, |k: int| (pblock + k) as u64),
                    decreases run - k,
                {
                    self.map.push(pblock + k as u64);
                    k += 1;
                    assert(self.map@ =~= before + Seq::new(k as nat, |k: int| (pblock + k) as u64));
                }
                Ok(())
            },
            _ => Err(Error::JournalUnmappedBlock),
        }
    }
}

/// The first reason not to load a journal with this superblock whose inode
/// has `mapped` blocks.
pub open spec fn admission_fault(raw: Seq<u8>, mapped: nat) -> Option<Error> {
    let v2 = be32_at(raw, H_BLOCKTYPE as int) == BLOCKTYPE_SUPERBLOCK_V2;
    if v2 && be32_at(raw, S_FEATURE_INCOMPAT as int) & !INCOMPAT_SUPP != 0 {
        Some(Error::UnsupportedIncompat)
    } else if v2 && be32_at(raw, S_FEATURE_RO_COMPAT as int) != 0 {
        Some(Error::UnsupportedRoCompat)
    } else if superblock_fault(raw) is Some {
        superblock_fault(raw)
    } else if superblock_content(raw).maxlen > mapped {
        Some(Error::MaxlenExceedsMap)
    } else {
        None
    }
}

/// The geometry of a journal: where its log blocks are, and its superblock.
pub struct JournalGeometry {
    pub block_map: Vec<u64>,
    pub superblock: JournalSuperblock,
}

impl JournalGeometry {
    /// The blocks of the log are mapped, and no others.
    pub open spec fn wf(self) -> bool {
        &&& self.superblock.wf()
        &&& self.block_map@.len() == self.superblock.maxlen
    }

    /// The device block of a log block.
    pub open spec fn physical(self, log: int) -> Option<u64> {
        if 0 <= log < self.block_map@.len() {
            Some(self.block_map@[log])
        } else {
            None
        }
    }

    /// Loads a journal: checks its features against what is supported, its
    /// superblock, and its size against the mapped blocks. Blocks that are
    /// mapped past the end of the log are not of the log.
    pub fn load(block_map: Vec<u64>, raw: &RawJournalSuperblock) -> (r: Result<Self, Error>)
        requires
            block_map@.len() <= u32::MAX,
        ensures
            r is Ok <==> admission_fault(raw.bytes@, block_map@.len()) is None,
            r matches Err(e) ==> admission_fault(raw.bytes@, block_map@.len()) == Some(e),
            r matches Ok(g) ==> {
                &&& g.wf()
                &&& g.superblock == superblock_content(raw.bytes@)
                &&& g.block_map@ == block_map@.take(g.superblock.maxlen as int)
                &&& forall|log: int|
                    #![trigger g.physical(log)]
                    g.physical(log) == (if 0 <= log < g.superblock.maxlen {
                        Some(block_map@[log])
                    } else {
                        None
                    })
            },
    {
        if raw.word(H_BLOCKTYPE) == BLOCKTYPE_SUPERBLOCK_V2 {
            if raw.word(S_FEATURE_INCOMPAT) & !INCOMPAT_SUPP != 0 {
                return Err(Error::UnsupportedIncompat);
            }
            if raw.word(S_FEATURE_RO_COMPAT) != 0 {
                return Err(Error::UnsupportedRoCompat);
            }
        }
        let superblock = match JournalSuperblock::try_from(raw) {
            Ok(superblock) => superblock,
            Err(e) => {
                return Err(e);
            },
        };
        if superblock.maxlen() as usize > block_map.len() {
            return Err(Error::MaxlenExceedsMap);
        }
        let mut block_map = block_map;
        block_map.truncate(superblock.maxlen() as usize);
        Ok(JournalGeometry { block_map, superblock })
    }

    /// The number of log blocks.
    pub fn maxlen(&self) -> (r: u32)
        ensures
            r == self.superblock.maxlen,
    {
        self.superblock.maxlen()
    }

    /// The first log block that holds log data.
    pub fn first(&self) -> (r: u32)
        ensures
            r == self.superblock.first,
    {
        self.superblock.first()
    }

    /// The first transaction id that recovery expects.
    pub fn sequence(&self) -> (r: Tid)
        ensures
            r == self.superblock.sequence,
    {
        self.superblock.sequence()
    }

    /// The log block where recovery starts. Zero means clean.
    pub fn start(&self) -> (r: u32)
        ensures
            r == self.superblock.start,
    {
        self.superblock.start()
    }

    /// Whether the log is clean, or starts in the ring.
    pub fn starts_in_ring(&self) -> (r: bool)
        ensures
            r == (self.superblock.start == 0 || in_ring(
                self.superblock,
                self.superblock.start as int,
            )),
    {
        let start: u32 = self.start();
        start == 0 || (self.first() <= start && start < self.maxlen())
    }

    /// The block size.
    pub fn blocksize(&self) -> (r: u32)
        ensures
            r == self.superblock.blocksize,
    {
        self.superblock.blocksize()
    }

    /// The geometry of descriptor tags.
    pub fn tag_layout(&self) -> (r: TagLayout)
        ensures
            r == self.superblock.tag_layout,
    {
        self.superblock.tag_layout()
    }

    /// The seed of the log's checksums, where the journal has them.
    pub fn csum_seed(&self) -> (r: Option<JournalCsumSeed>)
        ensures
            r == self.superblock.csum_seed,
    {
        self.superblock.csum_seed()
    }

    /// The device block of a log block, or nothing past the end of the log.
    pub fn log_block_to_physical(&self, log: u32) -> (r: Option<u64>)
        ensures
            r == self.physical(log as int),
            self.wf() ==> (r is Some <==> log < self.superblock.maxlen),
    {
        if (log as usize) < self.block_map.len() {
            Some(self.block_map[log as usize])
        } else {
            None
        }
    }

    /// The device block of a log block that is to be read or written.
    pub fn log_block(&self, log: u32) -> (r: Result<u64, Error>)
        ensures
            match self.physical(log as int) {
                Some(pblock) => r == Ok::<u64, Error>(pblock),
                None => r == Err::<u64, Error>(Error::LogBlockOutOfRange),
            },
    {
        match self.log_block_to_physical(log) {
            Some(pblock) => Ok(pblock),
            None => Err(Error::LogBlockOutOfRange),
        }
    }

    /// The device block of the journal superblock.
    pub fn superblock_block(&self) -> (r: Result<u64, Error>)
        ensures
            match self.physical(0) {
                Some(pblock) => r == Ok::<u64, Error>(pblock),
                None => r == Err::<u64, Error>(Error::SuperblockUnmapped),
            },
            self.wf() ==> r is Ok,
    {
        match self.log_block_to_physical(0) {
            Some(pblock) => Ok(pblock),
            None => Err(Error::SuperblockUnmapped),
        }
    }

    /// The log block after `cur`.
    pub fn next_log_block(&self, cur: u32) -> (r: u32)
        requires
            cur < u32::MAX,
        ensures
            r == ring_next(self.superblock, cur as int),
    {
        let next: u32 = cur + 1;
        if next >= self.maxlen() {
            self.first()
        } else {
            next
        }
    }

    /// The log block `count` steps after `pos`.
    pub fn advance(&self, pos: u32, count: u32) -> (r: u32)
        requires
            self.wf(),
            pos < u32::MAX,
        ensures
            r == ring_advance(self.superblock, pos as int, count as nat),
    {
        let mut at: u32 = pos;
        let mut n: u32 = 0;
        while n < count
            invariant
                self.wf(),
                at < u32::MAX,
                n <= count,
                at == ring_advance(self.superblock, pos as int, n as nat),
            decreases count - n,
        {
            at = self.next_log_block(at);
            n += 1;
        }
        at
    }

    /// How many blocks a commit at `head` may write without touching the log
    /// that still has to be checkpointed, which begins at `dirty_tail`.
    pub fn free_log_blocks(&self, head: u32, dirty_tail: Option<u32>) -> (r: u32)
        requires
            self.wf(),
            dirty_tail matches Some(tail) ==> in_ring(self.superblock, head as int) && in_ring(
                self.superblock,
                tail as int,
            ),
        ensures
            r == ring_free(self.superblock, head as int, dirty_tail),
            r <= ring_size(self.superblock),
    {
        let ring: u32 = self.maxlen() - self.first();
        match dirty_tail {
            None => ring,
            Some(tail) => {
                let head_off: u32 = head - self.first();
                let tail_off: u32 = tail - self.first();
                proof {
                    let d = head - tail;
                    if d < 0 {
                        vstd::arithmetic::div_mod::lemma_fundamental_div_mod_converse(
                            d,
                            ring as int,
                            -1,
                            d + ring,
                        );
                    } else {
                        vstd::arithmetic::div_mod::lemma_fundamental_div_mod_converse(
                            d,
                            ring as int,
                            0,
                            d,
                        );
                    }
                }
                if tail_off >= head_off {
                    tail_off - head_off
                } else {
                    ring - (head_off - tail_off)
                }
            },
        }
    }
}

} // verus!
