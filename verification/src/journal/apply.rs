//! Reading a committed transaction back from the log: applying its blocks to
//! their homes, and finding out which homes it covers.
//!
//! Reads and writes are made by the caller. A walk says which log block it
//! needs next, takes its content, and says what to write and how to go on.

use vstd::prelude::*;

use crate::bytes::{be32_bytes, write_bytes, BLOCK_SIZE};
use crate::error::Error;
use crate::journal::blockmap::{BlockMap, Dated};
use crate::journal::descriptor::{restored, Image};
use crate::journal::format::{
    header_of, tail_csum_ok, RawJournalHeader, BLOCKTYPE_COMMIT, BLOCKTYPE_DESCRIPTOR,
    BLOCKTYPE_REVOKE, JBD2_MAGIC, JOURNAL_HEADER_SIZE,
};
use crate::journal::geometry::{in_ring, ring_next, JournalGeometry};
use crate::journal::revoke::{suppressed, RevokeTable};
use crate::journal::superblock::JournalSuperblock;
use crate::journal::tag::{DescriptorTag, TagCursor};
use crate::journal::tid::Tid;

verus! {

/// The log as it stands on disk: the content of each log block.
pub type LogView = spec_fn(int) -> Seq<u8>;

/// What a walk still does: the blocks it writes home, in their order, and how
/// it ends.
#[verifier::ext_equal]
pub struct ApplyOutcome {
    pub writes: Seq<Image>,
    pub result: Result<u32, Error>,
}

/// A walk that ends at once.
pub open spec fn ended(result: Result<u32, Error>) -> ApplyOutcome {
    ApplyOutcome { writes: Seq::empty(), result }
}

/// A walk that first writes `image`.
pub open spec fn writing(image: Image, rest: ApplyOutcome) -> ApplyOutcome {
    ApplyOutcome { writes: seq![image] + rest.writes, result: rest.result }
}

/// How many more log blocks a chain may have: one that is longer than the log
/// runs in circles.
pub open spec fn steps_left(sb: JournalSuperblock, consumed: int) -> int {
    if consumed <= sb.maxlen {
        sb.maxlen - consumed + 1
    } else {
        0
    }
}

/// What is wrong with the header of a chain block of the transaction `tid`.
pub open spec fn chain_fault(header: RawJournalHeader, tid: Tid) -> Option<Error> {
    if header.h_magic != JBD2_MAGIC {
        Some(Error::ChainBadMagic)
    } else if header.h_sequence != tid.0 {
        Some(Error::ChainBadTid)
    } else if header.h_blocktype != BLOCKTYPE_COMMIT && header.h_blocktype != BLOCKTYPE_REVOKE
        && header.h_blocktype != BLOCKTYPE_DESCRIPTOR {
        Some(Error::ChainBadType)
    } else {
        None
    }
}

/// What applying the transaction `tid` does from the chain block `log` on: a
/// commit block ends it, a revoke block is stepped over, and the blocks that a
/// descriptor tags are applied.
pub open spec fn applied_chain(
    sb: JournalSuperblock,
    mapped: nat,
    records: Map<u64, Dated<()>>,
    view: LogView,
    tid: Tid,
    log: int,
    consumed: int,
    bad: bool,
) -> ApplyOutcome
    decreases steps_left(sb, consumed), 2int, 0int,
{
    let block = view(log);
    let header = header_of(block);
    if log >= mapped {
        ended(Err(Error::LogBlockOutOfRange))
    } else if chain_fault(header, tid) is Some {
        ended(Err(chain_fault(header, tid)->0))
    } else if header.h_blocktype == BLOCKTYPE_COMMIT {
        if bad {
            ended(Err(Error::DataChecksum))
        } else {
            ended(Ok(ring_next(sb, log) as u32))
        }
    } else if header.h_blocktype == BLOCKTYPE_REVOKE {
        if consumed + 1 > sb.maxlen {
            ended(Err(Error::ChainTooLong))
        } else {
            applied_chain(
                sb,
                mapped,
                records,
                view,
                tid,
                ring_next(sb, log),
                consumed + 1,
                bad,
            )
        }
    } else if sb.csum_seed is Some && !tail_csum_ok(sb.csum_seed->0, block) {
        ended(Err(Error::DescriptorChecksum))
    } else {
        applied_tags(
            sb,
            mapped,
            records,
            view,
            tid,
            sb.tag_layout.walked(block, JOURNAL_HEADER_SIZE as int),
            log,
            consumed,
            bad,
        )
    }
}

/// What applying does with the tags `items` of a descriptor, the last block
/// before them being `log`. The image of a revoked block is stepped over.
pub open spec fn applied_tags(
    sb: JournalSuperblock,
    mapped: nat,
    records: Map<u64, Dated<()>>,
    view: LogView,
    tid: Tid,
    items: Seq<Result<DescriptorTag, Error>>,
    log: int,
    consumed: int,
    bad: bool,
) -> ApplyOutcome
    decreases steps_left(sb, consumed), 1int, 2 * items.len(),
{
    let next = ring_next(sb, log);
    if items.len() == 0 {
        if consumed + 1 > sb.maxlen {
            ended(Err(Error::ChainTooLong))
        } else {
            applied_chain(sb, mapped, records, view, tid, next, consumed + 1, bad)
        }
    } else {
        match items[0] {
            Err(e) => ended(Err(e)),
            Ok(tag) => if suppressed(records, tag.blocknr, tid) {
                applied_tags(
                    sb,
                    mapped,
                    records,
                    view,
                    tid,
                    items.skip(1),
                    next,
                    consumed + 1,
                    bad,
                )
            } else {
                applied_data(
                    sb,
                    mapped,
                    records,
                    view,
                    tid,
                    tag,
                    items.skip(1),
                    next,
                    consumed + 1,
                    bad,
                )
            },
        }
    }
}

/// What applying does with the data block at `log` that `tag` tags. A block
/// whose checksum is wrong is left out, and fails the transaction at its end.
pub open spec fn applied_data(
    sb: JournalSuperblock,
    mapped: nat,
    records: Map<u64, Dated<()>>,
    view: LogView,
    tid: Tid,
    tag: DescriptorTag,
    rest: Seq<Result<DescriptorTag, Error>>,
    log: int,
    consumed: int,
    bad: bool,
) -> ApplyOutcome
    decreases steps_left(sb, consumed), 1int, 2 * rest.len() + 1,
{
    let block = view(log);
    if log >= mapped {
        ended(Err(Error::LogBlockOutOfRange))
    } else if sb.csum_seed is Some && !tag.data_ok(sb.csum_seed->0, tid, block) {
        applied_tags(sb, mapped, records, view, tid, rest, log, consumed, true)
    } else {
        writing(
            Image { blocknr: tag.blocknr, bytes: restored(tag.escaped(), block) },
            applied_tags(sb, mapped, records, view, tid, rest, log, consumed, bad),
        )
    }
}

/// What applying the transaction `tid` does, whose first block is `start`.
#[verifier::opaque]
pub open spec fn applied(
    sb: JournalSuperblock,
    mapped: nat,
    records: Map<u64, Dated<()>>,
    view: LogView,
    start: int,
    tid: Tid,
) -> ApplyOutcome {
    applied_chain(sb, mapped, records, view, tid, start, 0, false)
}

/// What kind of log block a walk has asked for.
pub enum ApplyStage {
    /// A descriptor, a revoke block or the commit block.
    Chain,
    /// The data block of a tag.
    Data { descriptor: Box<[u8; BLOCK_SIZE]>, cursor: TagCursor, tag: DescriptorTag },
}

/// A walk that applies one transaction. It has asked for the log block `log`.
pub struct ApplyWalk {
    pub tid: Tid,
    pub log: u32,
    pub consumed: u64,
    pub bad_tag_csum: bool,
    pub stage: ApplyStage,
}

/// A block to be written home.
pub struct HomeWrite {
    pub blocknr: u64,
    pub bytes: [u8; BLOCK_SIZE],
}

/// How a walk goes on.
pub enum ApplyNext {
    /// It needs the log block that the walk has asked for.
    Read(ApplyWalk),
    /// It has applied the transaction. The next one starts at this log block.
    Done(u32),
    /// It cannot go on.
    Failed(Error),
}

/// What a log block leads to: a block to be written home, if any, and how the
/// walk goes on after that write.
pub struct ApplyStep {
    pub write: Option<HomeWrite>,
    pub next: ApplyNext,
}

impl ApplyNext {
    /// What the walk still does.
    pub open spec fn outcome(
        self,
        sb: JournalSuperblock,
        mapped: nat,
        records: Map<u64, Dated<()>>,
        view: LogView,
    ) -> ApplyOutcome {
        match self {
            ApplyNext::Read(walk) => walk.outcome(sb, mapped, records, view),
            ApplyNext::Done(next) => ended(Ok(next)),
            ApplyNext::Failed(e) => ended(Err(e)),
        }
    }

    /// A walk that goes on is well-formed.
    pub open spec fn wf(self, geo: JournalGeometry) -> bool {
        self matches ApplyNext::Read(walk) ==> walk.wf(geo)
    }

    /// The log block that is asked for, or that is behind the transaction, is
    /// in the ring.
    pub open spec fn stays_in_ring(self, sb: JournalSuperblock) -> bool {
        match self {
            ApplyNext::Read(walk) => in_ring(sb, walk.log as int),
            ApplyNext::Done(next) => in_ring(sb, next as int),
            ApplyNext::Failed(_) => true,
        }
    }
}

impl ApplyStep {
    /// What the walk still does, with the write of this step.
    pub open spec fn outcome(
        self,
        sb: JournalSuperblock,
        mapped: nat,
        records: Map<u64, Dated<()>>,
        view: LogView,
    ) -> ApplyOutcome {
        let rest = self.next.outcome(sb, mapped, records, view);
        match self.write {
            None => rest,
            Some(write) => writing(
                Image { blocknr: write.blocknr, bytes: write.bytes@ },
                rest,
            ),
        }
    }
}

impl ApplyWalk {
    /// The log block that was asked for is mapped, and the count of blocks has
    /// a bound.
    pub open spec fn wf(self, geo: JournalGeometry) -> bool {
        &&& self.log < geo.block_map@.len()
        &&& match self.stage {
            ApplyStage::Chain => self.consumed <= geo.superblock.maxlen,
            ApplyStage::Data { cursor, .. } => {
                &&& cursor.wf(geo.superblock.tag_layout)
                &&& self.consumed <= geo.superblock.maxlen + cursor.offset
            },
        }
    }

    /// What the walk still does.
    pub open spec fn outcome(
        self,
        sb: JournalSuperblock,
        mapped: nat,
        records: Map<u64, Dated<()>>,
        view: LogView,
    ) -> ApplyOutcome {
        match self.stage {
            ApplyStage::Chain => applied_chain(
                sb,
                mapped,
                records,
                view,
                self.tid,
                self.log as int,
                self.consumed as int,
                self.bad_tag_csum,
            ),
            ApplyStage::Data { descriptor, cursor, tag } => applied_data(
                sb,
                mapped,
                records,
                view,
                self.tid,
                tag,
                cursor.rest(sb.tag_layout, (*descriptor)@),
                self.log as int,
                self.consumed as int,
                self.bad_tag_csum,
            ),
        }
    }

    /// Starts to apply the transaction `tid` from the log block `start` on.
    pub fn start(geo: &JournalGeometry, start: u32, tid: Tid) -> (r: Result<Self, Error>)
        ensures
            r is Ok <==> start < geo.block_map@.len(),
            r matches Err(e) ==> e == Error::LogBlockOutOfRange && forall|
                records: Map<u64, Dated<()>>,
                view: LogView,
            |
                #![trigger applied(
                    geo.superblock,
                    geo.block_map@.len(),
                    records,
                    view,
                    start as int,
                    tid,
                )]
                applied(geo.superblock, geo.block_map@.len(), records, view, start as int, tid)
                    == ended(Err(e)),
            r matches Ok(walk) ==> {
                &&& walk.wf(*geo)
                &&& walk.log == start
                &&& forall|records: Map<u64, Dated<()>>, view: LogView|
                    #![trigger walk.outcome(
                        geo.superblock,
                        geo.block_map@.len(),
                        records,
                        view,
                    )]
                    walk.outcome(geo.superblock, geo.block_map@.len(), records, view) == applied(
                        geo.superblock,
                        geo.block_map@.len(),
                        records,
                        view,
                        start as int,
                        tid,
                    )
            },
    {
        reveal(applied);
        match geo.log_block(start) {
            Err(e) => Err(e),
            Ok(_) => Ok(
                ApplyWalk {
                    tid,
                    log: start,
                    consumed: 0,
                    bad_tag_csum: false,
                    stage: ApplyStage::Chain,
                },
            ),
        }
    }

    /// Asks for a chain block.
    fn chain(geo: &JournalGeometry, tid: Tid, log: u32, consumed: u64, bad_tag_csum: bool) -> (next:
        ApplyNext)
        requires
            geo.wf(),
            consumed <= geo.superblock.maxlen,
        ensures
            next.wf(*geo),
            in_ring(geo.superblock, log as int) ==> next.stays_in_ring(geo.superblock),
            next matches ApplyNext::Read(walk) ==> walk.consumed == consumed,
            forall|records: Map<u64, Dated<()>>, view: LogView|
                #![trigger next.outcome(geo.superblock, geo.block_map@.len(), records, view)]
                next.outcome(geo.superblock, geo.block_map@.len(), records, view)
                    == applied_chain(
                    geo.superblock,
                    geo.block_map@.len(),
                    records,
                    view,
                    tid,
                    log as int,
                    consumed as int,
                    bad_tag_csum,
                ),
    {
        match geo.log_block(log) {
            Err(e) => ApplyNext::Failed(e),
            Ok(_) => ApplyNext::Read(
                ApplyWalk { tid, log, consumed, bad_tag_csum, stage: ApplyStage::Chain },
            ),
        }
    }

    /// Goes on with the tags of a descriptor that `from` has not yielded
    /// yet, up to the next data block that is needed.
    fn tags(
        geo: &JournalGeometry,
        revoked: &RevokeTable,
        tid: Tid,
        descriptor: Box<[u8; BLOCK_SIZE]>,
        from: TagCursor,
        log: u32,
        consumed: u64,
        bad_tag_csum: bool,
    ) -> (next: ApplyNext)
        requires
            geo.wf(),
            revoked.wf(),
            from.wf(geo.superblock.tag_layout),
            log < u32::MAX,
            consumed <= geo.superblock.maxlen + from.offset,
        ensures
            next.wf(*geo),
            in_ring(geo.superblock, log as int) ==> next.stays_in_ring(geo.superblock),
            next matches ApplyNext::Read(walk) ==> consumed < walk.consumed,
            forall|view: LogView|
                #![trigger next.outcome(geo.superblock, geo.block_map@.len(), revoked@, view)]
                next.outcome(geo.superblock, geo.block_map@.len(), revoked@, view) == applied_tags(
                    geo.superblock,
                    geo.block_map@.len(),
                    revoked@,
                    view,
                    tid,
                    from.rest(geo.superblock.tag_layout, (*descriptor)@),
                    log as int,
                    consumed as int,
                    bad_tag_csum,
                ),
    {
        let layout = geo.tag_layout();
        let ghost sb = geo.superblock;
        let ghost mapped = geo.block_map@.len();
        let ghost first = from.rest(layout, (*descriptor)@);
        let mut cursor = from;
        let mut at: u32 = log;
        let mut count: u64 = consumed;
        loop
            invariant
                geo.wf(),
                revoked.wf(),
                layout == geo.superblock.tag_layout,
                sb == geo.superblock,
                mapped == geo.block_map@.len(),
                first == from.rest(layout, (*descriptor)@),
                cursor.wf(layout),
                at < u32::MAX,
                in_ring(sb, log as int) ==> in_ring(sb, at as int),
                consumed <= count <= sb.maxlen + cursor.offset,
                forall|view: LogView|
                    #![trigger applied_tags(
                        sb,
                        mapped,
                        revoked@,
                        view,
                        tid,
                        first,
                        log as int,
                        consumed as int,
                        bad_tag_csum,
                    )]
                    applied_tags(
                        sb,
                        mapped,
                        revoked@,
                        view,
                        tid,
                        first,
                        log as int,
                        consumed as int,
                        bad_tag_csum,
                    ) == applied_tags(
                        sb,
                        mapped,
                        revoked@,
                        view,
                        tid,
                        cursor.rest(layout, (*descriptor)@),
                        at as int,
                        count as int,
                        bad_tag_csum,
                    ),
            decreases cursor.rest(layout, (*descriptor)@).len(),
        {
            let next: u32 = geo.next_log_block(at);
            match cursor.next(&layout, &*descriptor) {
                None => {
                    if count + 1 > geo.maxlen() as u64 {
                        return ApplyNext::Failed(Error::ChainTooLong);
                    }
                    return Self::chain(geo, tid, next, count + 1, bad_tag_csum);
                },
                Some(Err(e)) => {
                    return ApplyNext::Failed(e);
                },
                Some(Ok(tag)) => {
                    at = next;
                    count = count + 1;
                    if !revoked.suppresses(tag.blocknr(), tid) {
                        return match geo.log_block(at) {
                            Err(e) => ApplyNext::Failed(e),
                            Ok(_) => ApplyNext::Read(
                                ApplyWalk {
                                    tid,
                                    log: at,
                                    consumed: count,
                                    bad_tag_csum,
                                    stage: ApplyStage::Data { descriptor, cursor, tag },
                                },
                            ),
                        };
                    }
                },
            }
        }
    }

    /// Takes the log block that the walk has asked for. Each step gets further,
    /// so that the walk ends even in a log that runs in circles.
    pub fn on_block(
        self,
        geo: &JournalGeometry,
        revoked: &RevokeTable,
        block: &[u8; BLOCK_SIZE],
    ) -> (step: ApplyStep)
        requires
            geo.wf(),
            revoked.wf(),
            self.wf(*geo),
        ensures
            step.next.wf(*geo),
            in_ring(geo.superblock, self.log as int) ==> step.next.stays_in_ring(geo.superblock),
            step.next matches ApplyNext::Read(walk) ==> self.consumed < walk.consumed,
            forall|view: LogView|
                #![trigger self.outcome(geo.superblock, geo.block_map@.len(), revoked@, view)]
                view(self.log as int) == block@ ==> self.outcome(
                    geo.superblock,
                    geo.block_map@.len(),
                    revoked@,
                    view,
                ) == step.outcome(geo.superblock, geo.block_map@.len(), revoked@, view),
    {
        match self.stage {
            ApplyStage::Chain => ApplyStep {
                write: None,
                next: Self::on_chain_block(
                    geo,
                    revoked,
                    self.tid,
                    self.log,
                    self.consumed,
                    self.bad_tag_csum,
                    block,
                ),
            },
            ApplyStage::Data { descriptor, cursor, tag } => {
                let intact = match geo.csum_seed() {
                    None => true,
                    Some(seed) => tag.verify_data_csum(seed, self.tid, block),
                };
                if !intact {
                    return ApplyStep {
                        write: None,
                        next: Self::tags(
                            geo,
                            revoked,
                            self.tid,
                            descriptor,
                            cursor,
                            self.log,
                            self.consumed,
                            true,
                        ),
                    };
                }
                let mut bytes = *block;
                if tag.is_escaped() {
                    write_bytes(&mut bytes, 0, &be32_bytes(JBD2_MAGIC));
                }
                ApplyStep {
                    write: Some(HomeWrite { blocknr: tag.blocknr(), bytes }),
                    next: Self::tags(
                        geo,
                        revoked,
                        self.tid,
                        descriptor,
                        cursor,
                        self.log,
                        self.consumed,
                        self.bad_tag_csum,
                    ),
                }
            },
        }
    }

    /// Takes a chain block.
    fn on_chain_block(
        geo: &JournalGeometry,
        revoked: &RevokeTable,
        tid: Tid,
        log: u32,
        consumed: u64,
        bad_tag_csum: bool,
        block: &[u8; BLOCK_SIZE],
    ) -> (next: ApplyNext)
        requires
            geo.wf(),
            revoked.wf(),
            log < geo.block_map@.len(),
            consumed <= geo.superblock.maxlen,
        ensures
            next.wf(*geo),
            in_ring(geo.superblock, log as int) ==> next.stays_in_ring(geo.superblock),
            next matches ApplyNext::Read(walk) ==> consumed < walk.consumed,
            forall|view: LogView|
                #![trigger next.outcome(geo.superblock, geo.block_map@.len(), revoked@, view)]
                view(log as int) == block@ ==> next.outcome(
                    geo.superblock,
                    geo.block_map@.len(),
                    revoked@,
                    view,
                ) == applied_chain(
                    geo.superblock,
                    geo.block_map@.len(),
                    revoked@,
                    view,
                    tid,
                    log as int,
                    consumed as int,
                    bad_tag_csum,
                ),
    {
        match check_chain_block(tid, block) {
            Err(e) => ApplyNext::Failed(e),
            Ok(ChainBlock::Commit) => if bad_tag_csum {
                ApplyNext::Failed(Error::DataChecksum)
            } else {
                ApplyNext::Done(geo.next_log_block(log))
            },
            Ok(ChainBlock::Revoke) => if consumed + 1 > geo.maxlen() as u64 {
                ApplyNext::Failed(Error::ChainTooLong)
            } else {
                Self::chain(geo, tid, geo.next_log_block(log), consumed + 1, bad_tag_csum)
            },
            Ok(ChainBlock::Descriptor) => {
                if let Some(seed) = geo.csum_seed() {
                    if !seed.verify_block_tail(block) {
                        return ApplyNext::Failed(Error::DescriptorChecksum);
                    }
                }
                Self::tags(
                    geo,
                    revoked,
                    tid,
                    Box::new(*block),
                    TagCursor::start(),
                    log,
                    consumed,
                    bad_tag_csum,
                )
            },
        }
    }
}

/// The kinds of blocks a chain is made of.
#[derive(Clone, Copy, Debug, PartialEq, Eq, Structural)]
pub enum ChainBlock {
    Descriptor,
    Revoke,
    Commit,
}

/// Tells what kind of chain block of the transaction `tid` this is.
pub fn check_chain_block(tid: Tid, block: &[u8; BLOCK_SIZE]) -> (r: Result<ChainBlock, Error>)
    ensures
        match chain_fault(header_of(block@), tid) {
            Some(e) => r == Err::<ChainBlock, Error>(e),
            None => {
                let kind = header_of(block@).h_blocktype;
                r == Ok::<ChainBlock, Error>(
                    if kind == BLOCKTYPE_COMMIT {
                        ChainBlock::Commit
                    } else if kind == BLOCKTYPE_REVOKE {
                        ChainBlock::Revoke
                    } else {
                        ChainBlock::Descriptor
                    },
                )
            },
        },
{
    let header = RawJournalHeader::parse(block);
    if header.h_magic != JBD2_MAGIC {
        Err(Error::ChainBadMagic)
    } else if header.h_sequence != tid.get() {
        Err(Error::ChainBadTid)
    } else if header.h_blocktype == BLOCKTYPE_COMMIT {
        Ok(ChainBlock::Commit)
    } else if header.h_blocktype == BLOCKTYPE_REVOKE {
        Ok(ChainBlock::Revoke)
    } else if header.h_blocktype == BLOCKTYPE_DESCRIPTOR {
        Ok(ChainBlock::Descriptor)
    } else {
        Err(Error::ChainBadType)
    }
}

/// Whether the transaction `tid` covers a block of `blocks`, from the chain
/// block `log` on. Only chain blocks are read.
pub open spec fn covers_chain(
    sb: JournalSuperblock,
    mapped: nat,
    blocks: Set<u64>,
    view: LogView,
    tid: Tid,
    log: int,
    consumed: int,
) -> Result<bool, Error>
    decreases steps_left(sb, consumed), 2int, 0int,
{
    let block = view(log);
    let header = header_of(block);
    if log >= mapped {
        Err(Error::LogBlockOutOfRange)
    } else if chain_fault(header, tid) is Some {
        Err(chain_fault(header, tid)->0)
    } else if header.h_blocktype == BLOCKTYPE_COMMIT {
        Ok(false)
    } else if header.h_blocktype == BLOCKTYPE_REVOKE {
        if consumed + 1 > sb.maxlen {
            Err(Error::ChainTooLong)
        } else {
            covers_chain(sb, mapped, blocks, view, tid, ring_next(sb, log), consumed + 1)
        }
    } else {
        covers_tags(
            sb,
            mapped,
            blocks,
            view,
            tid,
            sb.tag_layout.walked(block, JOURNAL_HEADER_SIZE as int),
            log,
            consumed,
        )
    }
}

/// Whether one of the tags `items`, or what follows them, covers a block of
/// `blocks`.
pub open spec fn covers_tags(
    sb: JournalSuperblock,
    mapped: nat,
    blocks: Set<u64>,
    view: LogView,
    tid: Tid,
    items: Seq<Result<DescriptorTag, Error>>,
    log: int,
    consumed: int,
) -> Result<bool, Error>
    decreases steps_left(sb, consumed), 1int, items.len(),
{
    let next = ring_next(sb, log);
    if items.len() == 0 {
        if consumed + 1 > sb.maxlen {
            Err(Error::ChainTooLong)
        } else {
            covers_chain(sb, mapped, blocks, view, tid, next, consumed + 1)
        }
    } else {
        match items[0] {
            Err(e) => Err(e),
            Ok(tag) => if blocks.contains(tag.blocknr) {
                Ok(true)
            } else {
                covers_tags(sb, mapped, blocks, view, tid, items.skip(1), next, consumed + 1)
            },
        }
    }
}

/// Whether the transaction `tid`, whose first block is `start`, covers a block
/// of `blocks`.
#[verifier::opaque]
pub open spec fn covers(
    sb: JournalSuperblock,
    mapped: nat,
    blocks: Set<u64>,
    view: LogView,
    start: int,
    tid: Tid,
) -> Result<bool, Error> {
    covers_chain(sb, mapped, blocks, view, tid, start, 0)
}

/// A scan for blocks that a transaction covers. It has asked for the log block
/// `log`.
#[derive(Clone, Copy)]
pub struct CoverScan {
    pub tid: Tid,
    pub log: u32,
    pub consumed: u64,
}

/// How a scan goes on.
pub enum CoverNext {
    /// It needs the log block that the scan has asked for.
    Read(CoverScan),
    /// It knows whether the transaction covers one of the blocks.
    Done(bool),
    /// It cannot go on.
    Failed(Error),
}

impl CoverNext {
    /// How the scan ends.
    pub open spec fn outcome(
        self,
        sb: JournalSuperblock,
        mapped: nat,
        blocks: Set<u64>,
        view: LogView,
    ) -> Result<bool, Error> {
        match self {
            CoverNext::Read(scan) => scan.outcome(sb, mapped, blocks, view),
            CoverNext::Done(found) => Ok(found),
            CoverNext::Failed(e) => Err(e),
        }
    }

    /// A scan that goes on is well-formed.
    pub open spec fn wf(self, geo: JournalGeometry) -> bool {
        self matches CoverNext::Read(scan) ==> scan.wf(geo)
    }
}

impl CoverScan {
    /// The log block that was asked for is mapped, and the count of blocks has
    /// a bound.
    pub open spec fn wf(self, geo: JournalGeometry) -> bool {
        &&& self.log < geo.block_map@.len()
        &&& self.consumed <= geo.superblock.maxlen
    }

    /// How the scan ends.
    pub open spec fn outcome(
        self,
        sb: JournalSuperblock,
        mapped: nat,
        blocks: Set<u64>,
        view: LogView,
    ) -> Result<bool, Error> {
        covers_chain(sb, mapped, blocks, view, self.tid, self.log as int, self.consumed as int)
    }

    /// Starts to scan the transaction `tid` from the log block `start` on.
    pub fn start(geo: &JournalGeometry, start: u32, tid: Tid) -> (r: Result<Self, Error>)
        ensures
            r is Ok <==> start < geo.block_map@.len(),
            r matches Err(e) ==> e == Error::LogBlockOutOfRange && forall|
                blocks: Set<u64>,
                view: LogView,
            |
                #![trigger covers(
                    geo.superblock,
                    geo.block_map@.len(),
                    blocks,
                    view,
                    start as int,
                    tid,
                )]
                covers(geo.superblock, geo.block_map@.len(), blocks, view, start as int, tid)
                    == Err::<bool, Error>(e),
            r matches Ok(scan) ==> {
                &&& scan.wf(*geo)
                &&& scan.log == start
                &&& forall|blocks: Set<u64>, view: LogView|
                    #![trigger scan.outcome(geo.superblock, geo.block_map@.len(), blocks, view)]
                    scan.outcome(geo.superblock, geo.block_map@.len(), blocks, view) == covers(
                        geo.superblock,
                        geo.block_map@.len(),
                        blocks,
                        view,
                        start as int,
                        tid,
                    )
            },
    {
        reveal(covers);
        match geo.log_block(start) {
            Err(e) => Err(e),
            Ok(_) => Ok(CoverScan { tid, log: start, consumed: 0 }),
        }
    }

    /// Asks for a chain block.
    fn chain(geo: &JournalGeometry, tid: Tid, log: u32, consumed: u64) -> (next: CoverNext)
        requires
            geo.wf(),
            consumed <= geo.superblock.maxlen,
        ensures
            next.wf(*geo),
            next matches CoverNext::Read(scan) ==> scan.consumed == consumed,
            forall|blocks: Set<u64>, view: LogView|
                #![trigger next.outcome(geo.superblock, geo.block_map@.len(), blocks, view)]
                next.outcome(geo.superblock, geo.block_map@.len(), blocks, view) == covers_chain(
                    geo.superblock,
                    geo.block_map@.len(),
                    blocks,
                    view,
                    tid,
                    log as int,
                    consumed as int,
                ),
    {
        match geo.log_block(log) {
            Err(e) => CoverNext::Failed(e),
            Ok(_) => CoverNext::Read(CoverScan { tid, log, consumed }),
        }
    }

    /// Takes the chain block that the scan has asked for. Each step gets further.
    pub fn on_block(
        self,
        geo: &JournalGeometry,
        unpublished: &BlockMap<()>,
        block: &[u8; BLOCK_SIZE],
    ) -> (next: CoverNext)
        requires
            geo.wf(),
            unpublished.wf(),
            self.wf(*geo),
        ensures
            next.wf(*geo),
            next matches CoverNext::Read(scan) ==> self.consumed < scan.consumed,
            forall|view: LogView|
                #![trigger self.outcome(
                    geo.superblock,
                    geo.block_map@.len(),
                    unpublished@.dom(),
                    view,
                )]
                view(self.log as int) == block@ ==> self.outcome(
                    geo.superblock,
                    geo.block_map@.len(),
                    unpublished@.dom(),
                    view,
                ) == next.outcome(geo.superblock, geo.block_map@.len(), unpublished@.dom(), view),
    {
        match check_chain_block(self.tid, block) {
            Err(e) => CoverNext::Failed(e),
            Ok(ChainBlock::Commit) => CoverNext::Done(false),
            Ok(ChainBlock::Revoke) => if self.consumed + 1 > geo.maxlen() as u64 {
                CoverNext::Failed(Error::ChainTooLong)
            } else {
                Self::chain(geo, self.tid, geo.next_log_block(self.log), self.consumed + 1)
            },
            Ok(ChainBlock::Descriptor) => Self::tags(
                geo,
                unpublished,
                self.tid,
                block,
                self.log,
                self.consumed,
            ),
        }
    }

    /// Goes through the tags of a descriptor.
    fn tags(
        geo: &JournalGeometry,
        unpublished: &BlockMap<()>,
        tid: Tid,
        descriptor: &[u8; BLOCK_SIZE],
        log: u32,
        consumed: u64,
    ) -> (next: CoverNext)
        requires
            geo.wf(),
            unpublished.wf(),
            log < u32::MAX,
            consumed <= geo.superblock.maxlen,
        ensures
            next.wf(*geo),
            next matches CoverNext::Read(scan) ==> consumed < scan.consumed,
            forall|view: LogView|
                #![trigger next.outcome(
                    geo.superblock,
                    geo.block_map@.len(),
                    unpublished@.dom(),
                    view,
                )]
                next.outcome(geo.superblock, geo.block_map@.len(), unpublished@.dom(), view)
                    == covers_tags(
                    geo.superblock,
                    geo.block_map@.len(),
                    unpublished@.dom(),
                    view,
                    tid,
                    geo.superblock.tag_layout.walked(descriptor@, JOURNAL_HEADER_SIZE as int),
                    log as int,
                    consumed as int,
                ),
    {
        let layout = geo.tag_layout();
        let ghost sb = geo.superblock;
        let ghost mapped = geo.block_map@.len();
        let ghost blocks = unpublished@.dom();
        let ghost first = layout.walked(descriptor@, JOURNAL_HEADER_SIZE as int);
        let mut cursor = TagCursor::start();
        let mut at: u32 = log;
        let mut count: u64 = consumed;
        loop
            invariant
                geo.wf(),
                unpublished.wf(),
                layout == geo.superblock.tag_layout,
                sb == geo.superblock,
                mapped == geo.block_map@.len(),
                blocks == unpublished@.dom(),
                first == layout.walked(descriptor@, JOURNAL_HEADER_SIZE as int),
                cursor.wf(layout),
                at < u32::MAX,
                consumed <= count <= sb.maxlen + cursor.offset,
                forall|view: LogView|
                    #![trigger covers_tags(
                        sb,
                        mapped,
                        blocks,
                        view,
                        tid,
                        first,
                        log as int,
                        consumed as int,
                    )]
                    covers_tags(
                        sb,
                        mapped,
                        blocks,
                        view,
                        tid,
                        first,
                        log as int,
                        consumed as int,
                    ) == covers_tags(
                        sb,
                        mapped,
                        blocks,
                        view,
                        tid,
                        cursor.rest(layout, descriptor@),
                        at as int,
                        count as int,
                    ),
            decreases cursor.rest(layout, descriptor@).len(),
        {
            let next: u32 = geo.next_log_block(at);
            match cursor.next(&layout, descriptor) {
                None => {
                    if count + 1 > geo.maxlen() as u64 {
                        return CoverNext::Failed(Error::ChainTooLong);
                    }
                    return Self::chain(geo, tid, next, count + 1);
                },
                Some(Err(e)) => {
                    return CoverNext::Failed(e);
                },
                Some(Ok(tag)) => {
                    if unpublished.contains(tag.blocknr()) {
                        return CoverNext::Done(true);
                    }
                    at = next;
                    count = count + 1;
                },
            }
        }
    }
}

} // verus!
