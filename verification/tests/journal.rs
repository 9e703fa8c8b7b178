use std::collections::BTreeMap;

use ext4::bytes::BLOCK_SIZE;
use ext4::error::{Errno, Error};
use ext4::inode::desc::{FilePerm, InodeDesc, InodeSeed, InodeType};
use ext4::inode::node::{ExtentSnapshot, Inode};
use ext4::inode::raw::{RawInode, INODE_SIZE};
use ext4::inode::time::Duration;
use ext4::journal::access::{AccessStep, ForgetKind, OpHandle, WriteAccess};
use ext4::journal::apply::{ApplyNext, ApplyWalk};
use ext4::journal::chain::{build_commit_block, build_descriptor_chain, CommitTime};
use ext4::journal::checkpoint::{CheckpointPass, PassNext};
use ext4::journal::commit::{CommitAttempt, CommitOp, CommitPhase, CommitPlan};
use ext4::journal::descriptor::DescriptorRun;
use ext4::journal::format::{
    JournalCsumSeed, RawJournalHeader, BLOCKTYPE_COMMIT, BLOCKTYPE_DESCRIPTOR, BLOCKTYPE_REVOKE,
    BLOCKTYPE_SUPERBLOCK_V1, BLOCKTYPE_SUPERBLOCK_V2, INCOMPAT_64BIT, INCOMPAT_CSUM_V2,
    INCOMPAT_CSUM_V3, INCOMPAT_REVOKE, JBD2_CRC32C_CHKSUM, JBD2_MAGIC, TAG_FLAG_ESCAPE,
    TAG_FLAG_LAST_TAG, TAG_FLAG_SAME_UUID,
};
use ext4::journal::geometry::{
    locate_journal, BlockMapper, JournalGeometry, JournalLocation, Mapping, JOURNAL_INO,
};
use ext4::journal::revoke::RevokeTable;
use ext4::journal::state::{
    commit_or_drain_tail, max_credits, CommitAction, DrainStep, JournalState, PinnedFree,
};
use ext4::journal::superblock::{
    upgrade_journal_on_mount, JournalUpgradeNeeds, RawJournalSuperblock, H_BLOCKTYPE, S_BLOCKSIZE,
    S_CHECKSUM, S_CHECKSUM_TYPE, S_FEATURE_INCOMPAT, S_FEATURE_RO_COMPAT, S_FIRST, S_HEAD,
    S_MAXLEN, S_SEQUENCE, S_START,
};
use ext4::journal::tag::{DescriptorTag, TagLayout};
use ext4::journal::tid::Tid;
use ext4::journal::transaction::{OrderedData, Transaction};

type Block = [u8; BLOCK_SIZE];

const JOURNAL_START_BLOCK: u64 = 200;

fn journal_super(maxlen: u32, first: u32, sequence: u32, start: u32) -> RawJournalSuperblock {
    let mut raw = RawJournalSuperblock { bytes: [0; 1024] };
    raw.set_word(0, JBD2_MAGIC);
    raw.set_word(H_BLOCKTYPE, BLOCKTYPE_SUPERBLOCK_V2);
    raw.set_word(S_BLOCKSIZE, BLOCK_SIZE as u32);
    raw.set_word(S_MAXLEN, maxlen);
    raw.set_word(S_FIRST, first);
    raw.set_word(S_SEQUENCE, sequence);
    raw.set_word(S_START, start);
    raw.set_word(64, 1);
    raw
}

struct Fixture {
    blocks: BTreeMap<u64, Block>,
    flushes: usize,
    ordered: Vec<OrderedData>,
    geo: JournalGeometry,
    state: JournalState,
}

fn load(raw: &RawJournalSuperblock, nblocks: u64) -> Result<JournalGeometry, Error> {
    let map = (0..nblocks).map(|log| JOURNAL_START_BLOCK + log).collect();
    JournalGeometry::load(map, raw)
}

fn loaded(raw: &RawJournalSuperblock, nblocks: u64) -> JournalGeometry {
    match load(raw, nblocks) {
        Ok(geo) => geo,
        Err(e) => panic!("the journal was refused: {:?}", e),
    }
}

fn journaled_fixture(maxlen: u32, first: u32, sequence: u32) -> Fixture {
    journal_with(journal_super(maxlen, first, sequence, 0))
}

fn journal_with(raw: RawJournalSuperblock) -> Fixture {
    let geo = loaded(&raw, raw.word(S_MAXLEN) as u64);
    let state = JournalState::new(&geo);
    let mut f = Fixture {
        blocks: BTreeMap::new(),
        flushes: 0,
        ordered: Vec::new(),
        geo,
        state,
    };
    f.write_super(&raw);
    f
}

impl Fixture {
    fn read(&self, block: u64) -> Block {
        match self.blocks.get(&block) {
            Some(bytes) => *bytes,
            None => [0; BLOCK_SIZE],
        }
    }

    fn read_log(&self, log: u32) -> Block {
        self.read(JOURNAL_START_BLOCK + log as u64)
    }

    fn log_header(&self, log: u32) -> RawJournalHeader {
        RawJournalHeader::parse(&self.read_log(log))
    }

    fn read_super(&self) -> RawJournalSuperblock {
        let mut raw = RawJournalSuperblock { bytes: [0; 1024] };
        raw.bytes
            .copy_from_slice(&self.read(JOURNAL_START_BLOCK)[..1024]);
        raw
    }

    fn write_super(&mut self, raw: &RawJournalSuperblock) {
        let mut block = self.read(JOURNAL_START_BLOCK);
        block[..1024].copy_from_slice(&raw.bytes);
        self.blocks.insert(JOURNAL_START_BLOCK, block);
    }

    fn tag(&self, log: u32, i: usize) -> DescriptorTag {
        let block = self.read_log(log);
        let layout = self.geo.tag_layout();
        let mut walk = layout.walk(&block);
        for _ in 0..i {
            walk.next();
        }
        walk.next().unwrap().unwrap()
    }

    fn stage(&mut self, txn: Transaction) {
        let tid = txn.tid();
        self.state.next_tid = tid.next();
        self.state.running = Some(txn);
        assert_eq!(self.state.stage_commit(), Some(tid));
    }

    fn run(&mut self, plan: &CommitPlan) {
        for op in &plan.ops {
            match op {
                CommitOp::EnterPhase(phase) => {
                    self.state
                        .advance_committing_phase(plan.tid, *phase)
                        .unwrap();
                }
                CommitOp::FlushData(data) => self.ordered.push(*data),
                CommitOp::Barrier => self.flushes += 1,
                CommitOp::WriteLog { log, bytes } => {
                    let block = self.geo.log_block(*log).unwrap();
                    self.blocks.insert(block, **bytes);
                }
                CommitOp::WriteCommitBlock { log } => {
                    let block = self.geo.log_block(*log).unwrap();
                    let now = CommitTime { secs: 7, nanos: 9 };
                    let bytes = build_commit_block(plan.tid, self.geo.csum_seed(), now);
                    self.blocks.insert(block, bytes);
                }
                CommitOp::MoveTail { start } => {
                    let mut raw = self.read_super();
                    raw.retail(*start, plan.tid);
                    self.write_super(&raw);
                }
                CommitOp::Publish => self.state.publish_commit(&self.geo, plan).unwrap(),
            }
        }
    }

    fn attempt(&mut self) -> Result<bool, Error> {
        match self.state.attempt_commit(&self.geo) {
            Err(e) => Err(e),
            Ok(CommitAttempt::NeedsLogSpace) => Ok(false),
            Ok(CommitAttempt::Ready(plan)) => {
                self.run(&plan);
                Ok(true)
            }
        }
    }

    fn commit(&mut self, txn: Transaction) -> Result<Tid, Error> {
        let tid = txn.tid();
        self.stage(txn);
        let done = self.attempt();
        self.state.finish_commit(done.is_err());
        match done {
            Ok(true) => Ok(tid),
            Ok(false) => panic!("no room in the log"),
            Err(e) => Err(e),
        }
    }

    fn checkpoint(&mut self, target: Option<u32>) -> Result<bool, Error> {
        let input = self.state.checkpoint_input();
        let mut next = CheckpointPass::start(&self.geo, input, target);
        loop {
            match next {
                PassNext::Idle => return Ok(false),
                PassNext::Failed(e) => return Err(e),
                PassNext::Retire(retirement) => {
                    self.flushes += 1;
                    let mut raw = self.read_super();
                    retirement.rewrite_superblock(&mut raw);
                    self.write_super(&raw);
                    self.flushes += 1;
                    self.state.finish_checkpoint(&retirement);
                    return Ok(true);
                }
                PassNext::Read(pass) => {
                    let block = self.geo.log_block(pass.wanted()).unwrap();
                    let bytes = self.read(block);
                    let step = pass.on_block(&self.geo, &bytes);
                    if let Some(write) = step.write {
                        self.blocks.insert(write.blocknr, write.bytes);
                    }
                    next = step.next;
                }
            }
        }
    }

    fn apply(&mut self, start: u32, tid: Tid, revoked: &RevokeTable) -> Result<u32, Error> {
        let mut walk = ApplyWalk::start(&self.geo, start, tid)?;
        loop {
            let block = self.geo.log_block(walk.log).unwrap();
            let bytes = self.read(block);
            let step = walk.on_block(&self.geo, revoked, &bytes);
            if let Some(write) = step.write {
                self.blocks.insert(write.blocknr, write.bytes);
            }
            match step.next {
                ApplyNext::Read(next) => walk = next,
                ApplyNext::Done(next) => return Ok(next),
                ApplyNext::Failed(e) => return Err(e),
            }
        }
    }

    fn commit_now(&mut self) -> Result<(), Error> {
        assert_eq!(self.state.poll_commit_action(), Some(CommitAction::Commit));
        assert!(self.state.stage_commit().is_some());
        let mut drained = false;
        let result = loop {
            let attempt = self.state.attempt_commit(&self.geo);
            match commit_or_drain_tail(drained, attempt) {
                DrainStep::Run(plan) => {
                    self.run(&plan);
                    break Ok(());
                }
                DrainStep::Drain => {
                    drained = true;
                    if let Err(e) = self.checkpoint(None) {
                        break Err(e);
                    }
                }
                DrainStep::Failed(e) => break Err(e),
            }
        };
        self.state.finish_commit(result.is_err());
        result
    }

    fn open(&mut self) -> OpHandle {
        self.state.open_op().unwrap().unwrap()
    }

    fn write_access(&mut self, handle: OpHandle, block: u64) -> WriteAccess {
        match self.state.get_write_access(handle, block).unwrap() {
            AccessStep::Ready(access) => access,
            AccessStep::NeedsBlock => {
                let home = self.read(block);
                self.state.seed_write_access(handle, block, home).unwrap()
            }
        }
    }
}

fn make_txn(tid: u32, blocks: &[(u64, Block)]) -> Transaction {
    let mut txn = Transaction::new(Tid::new(tid));
    for (bid, content) in blocks {
        txn.capture_create(*bid);
        txn.apply_patch(*bid, 0, content).unwrap();
    }
    txn
}

fn marked(head: &[u8]) -> Block {
    let mut block = [0; BLOCK_SIZE];
    block[..head.len()].copy_from_slice(head);
    block
}

fn layout_of(features: u32) -> TagLayout {
    match TagLayout::from_features(features) {
        Ok(layout) => layout,
        Err(e) => panic!("no layout: {:?}", e),
    }
}

fn chain_of<'t>(
    txn: &'t Transaction,
    layout: TagLayout,
    seed: Option<JournalCsumSeed>,
) -> Result<Vec<DescriptorRun<'t>>, Error> {
    build_descriptor_chain(txn.tid(), &txn.captures.entries, layout, seed)
}

fn tags_in(layout: TagLayout, block: &Block) -> Vec<DescriptorTag> {
    let mut tags = Vec::new();
    let mut walk = layout.walk(block);
    while let Some(tag) = walk.next() {
        tags.push(tag.unwrap());
    }
    tags
}

fn escapes(run: &DescriptorRun<'_>) -> Vec<bool> {
    run.blocks.iter().map(|b| b.escape).collect()
}

#[test]
fn descriptor_block_v0_bytes_are_frozen() {
    let c = [0u8; BLOCK_SIZE];
    let txn = make_txn(7, &[(0x123, c), (0x456, c)]);
    let chain = chain_of(&txn, layout_of(0), None).unwrap();
    assert_eq!(chain.len(), 1);
    assert_eq!(escapes(&chain[0]), vec![false, false]);

    let mut expected = [0u8; BLOCK_SIZE];
    expected[..12].copy_from_slice(&[
        0xC0, 0x3B, 0x39, 0x98, 0x00, 0x00, 0x00, 0x01, 0x00, 0x00, 0x00, 0x07,
    ]);
    expected[12..20].copy_from_slice(&[0x00, 0x00, 0x01, 0x23, 0, 0, 0, 0]);
    expected[36..44].copy_from_slice(&[0x00, 0x00, 0x04, 0x56, 0, 0, 0x00, 0x0A]);
    assert_eq!(chain[0].descriptor.as_slice(), expected.as_slice());
}

#[test]
fn descriptor_builder_64bit_round_trip() {
    let layout = layout_of(INCOMPAT_64BIT);
    let small: u64 = 0x321;
    let wide: u64 = (1 << 32) | 0x700;
    let c = [0u8; BLOCK_SIZE];
    let txn = make_txn(3, &[(small, c), (wide, c)]);
    let chain = chain_of(&txn, layout, None).unwrap();
    assert_eq!(chain.len(), 1);
    assert_eq!(escapes(&chain[0]), vec![false, false]);

    let tags = tags_in(layout, &chain[0].descriptor);
    assert_eq!(tags.len(), 2);
    assert_eq!(tags[0].blocknr(), small);
    assert!(!tags[0].is_last());
    assert_eq!(tags[1].blocknr(), wide);
    assert!(tags[1].is_last());
}

#[test]
fn descriptor_builder_csum_v3_round_trip() {
    let layout = layout_of(INCOMPAT_CSUM_V3 | INCOMPAT_64BIT);
    let seed = JournalCsumSeed::derive(b"p7a4-commit-uuid");
    let tid = Tid::new(4);
    let mut escaped = marked(&JBD2_MAGIC.to_be_bytes());
    escaped[4..8].copy_from_slice(b"REST");
    let plain = [0u8; BLOCK_SIZE];
    let wide: u64 = (9 << 32) | 0x800;
    let txn = make_txn(4, &[(0x200, escaped), (wide, plain)]);

    let chain = chain_of(&txn, layout, Some(seed)).unwrap();
    assert_eq!(chain.len(), 1);
    let block = &chain[0].descriptor;
    assert_eq!(escapes(&chain[0]), vec![true, false]);
    assert_eq!(chain[0].blocks[0].bytes, &escaped);
    assert_eq!(chain[0].blocks[1].bytes, &plain);

    let tags = tags_in(layout, block);
    assert_eq!(tags.len(), 2);
    assert_eq!(tags[0].blocknr(), 0x200);
    assert!(tags[0].is_escaped());
    assert_eq!(tags[1].blocknr(), wide);
    assert!(!tags[1].is_escaped());
    assert!(tags[1].is_last());

    let mut logged = escaped;
    logged[..4].fill(0);
    assert!(tags[0].verify_data_csum(seed, tid, &logged));
    assert!(!tags[0].verify_data_csum(seed, tid, &escaped));
    assert!(tags[1].verify_data_csum(seed, tid, &plain));
    assert!(seed.verify_block_tail(block));
}

#[test]
fn descriptor_builder_rejects_wide_block_on_v0_layout() {
    let txn = make_txn(1, &[((1u64 << 32) | 5, [0u8; BLOCK_SIZE])]);
    let err = chain_of(&txn, layout_of(0), None).err();
    assert_eq!(err, Some(Error::BlockTooWide));
    assert_eq!(Error::BlockTooWide.error(), Errno::EFBIG);
}

#[test]
fn descriptor_chain_splits_with_per_descriptor_flags() {
    let layout = layout_of(0);
    let per_descriptor = layout.tags_per_descriptor();
    let n = per_descriptor + 2;
    let mut txn = Transaction::new(Tid::new(9));
    for i in 0..n {
        txn.capture_create(1000 + i as u64);
    }

    let chain = chain_of(&txn, layout, None).unwrap();
    assert_eq!(chain.len(), 2);
    assert_eq!(chain[0].nr_blocks(), per_descriptor);
    assert_eq!(chain[1].nr_blocks(), 2);
    for run in &chain {
        let header = RawJournalHeader::parse(&run.descriptor);
        assert_eq!(header.h_magic, JBD2_MAGIC);
        assert_eq!(header.h_blocktype, BLOCKTYPE_DESCRIPTOR);
        assert_eq!(header.h_sequence, 9);
    }

    let tags1 = tags_in(layout, &chain[0].descriptor);
    assert_eq!(tags1.len(), per_descriptor);
    assert_eq!(tags1[0].flags() & TAG_FLAG_SAME_UUID, 0);
    assert!(tags1[1..]
        .iter()
        .all(|t| t.flags() & TAG_FLAG_SAME_UUID != 0));
    assert!(tags1[..per_descriptor - 1].iter().all(|t| !t.is_last()));
    assert!(tags1[per_descriptor - 1].is_last());

    let tags2 = tags_in(layout, &chain[1].descriptor);
    assert_eq!(tags2.len(), 2);
    assert_eq!(tags2[0].flags() & TAG_FLAG_SAME_UUID, 0);
    assert!(!tags2[0].is_last());
    assert_ne!(tags2[1].flags() & TAG_FLAG_SAME_UUID, 0);
    assert!(tags2[1].is_last());

    assert_eq!(tags1[0].blocknr(), 1000);
    assert_eq!(tags2[1].blocknr(), 1000 + n as u64 - 1);
}

#[test]
fn commit_single_transaction_layout() {
    let mut f = journaled_fixture(16, 1, 1);
    let (dest0, dest1) = (500u64, 700u64);
    let c0 = marked(b"BLOCKZR0");
    let c1 = marked(b"BLOCKZR1");
    let tid = f
        .commit(make_txn(1, &[(dest0, c0), (dest1, c1)]))
        .unwrap();
    assert_eq!(tid, Tid::new(1));

    let desc = f.log_header(1);
    assert_eq!(desc.h_magic, JBD2_MAGIC);
    assert_eq!(desc.h_blocktype, BLOCKTYPE_DESCRIPTOR);
    assert_eq!(desc.h_sequence, tid.get());

    let tag0 = f.tag(1, 0);
    assert_eq!(tag0.blocknr(), dest0);
    assert_eq!(tag0.flags() & TAG_FLAG_SAME_UUID, 0);
    assert_eq!(tag0.flags() & TAG_FLAG_LAST_TAG, 0);
    let tag1 = f.tag(1, 1);
    assert_eq!(tag1.blocknr(), dest1);
    assert_ne!(tag1.flags() & TAG_FLAG_SAME_UUID, 0);
    assert_ne!(tag1.flags() & TAG_FLAG_LAST_TAG, 0);

    assert_eq!(f.read_log(2), c0);
    assert_eq!(f.read_log(3), c1);

    let commit = f.log_header(4);
    assert_eq!(commit.h_magic, JBD2_MAGIC);
    assert_eq!(commit.h_blocktype, BLOCKTYPE_COMMIT);
    assert_eq!(commit.h_sequence, tid.get());
    assert_eq!(&f.read_log(4)[48..60], &[0, 0, 0, 0, 0, 0, 0, 7, 0, 0, 0, 9]);

    assert_eq!(f.state.committed_tid, tid);
    let sb = f.read_super();
    assert_eq!(sb.word(S_START), 1);
    assert_eq!(sb.word(S_SEQUENCE), tid.get());
}

#[test]
fn commit_escapes_block_starting_with_magic() {
    let mut f = journaled_fixture(16, 1, 1);
    let mut content = marked(&JBD2_MAGIC.to_be_bytes());
    content[4..8].copy_from_slice(b"REST");
    f.commit(make_txn(1, &[(600, content)])).unwrap();

    assert_ne!(f.tag(1, 0).flags() & TAG_FLAG_ESCAPE, 0);
    let logged = f.read_log(2);
    assert_eq!(&logged[..4], &[0u8; 4]);
    assert_eq!(&logged[4..8], b"REST");
}

#[test]
fn commit_two_sequential_transactions() {
    let mut f = journaled_fixture(24, 1, 1);
    let t1 = make_txn(1, &[(500, marked(b"T1A0")), (700, marked(b"T1B0"))]);
    assert_eq!(f.commit(t1).unwrap(), Tid::new(1));
    assert_eq!(f.state.head, 5);
    assert_eq!(f.state.tail_block, Some(1));
    assert_eq!(f.state.tail_tid, Tid::new(1));

    let t2 = make_txn(2, &[(900, marked(b"T2C0"))]);
    assert_eq!(f.commit(t2).unwrap(), Tid::new(2));

    assert_eq!(f.log_header(1).h_sequence, 1);
    assert_eq!(f.log_header(1).h_blocktype, BLOCKTYPE_DESCRIPTOR);
    assert_eq!(f.log_header(4).h_sequence, 1);
    assert_eq!(f.log_header(4).h_blocktype, BLOCKTYPE_COMMIT);
    assert_eq!(f.log_header(5).h_sequence, 2);
    assert_eq!(f.log_header(5).h_blocktype, BLOCKTYPE_DESCRIPTOR);
    assert_eq!(f.log_header(7).h_sequence, 2);
    assert_eq!(f.log_header(7).h_blocktype, BLOCKTYPE_COMMIT);

    assert_eq!(f.state.committed_tid, Tid::new(2));
    assert_eq!(f.state.head, 8);
    assert_eq!(f.state.tail_block, Some(1));
    assert_eq!(f.state.tail_tid, Tid::new(1));
    let sb = f.read_super();
    assert_eq!(sb.word(S_START), 1);
    assert_eq!(sb.word(S_SEQUENCE), 1);
}

#[test]
fn commit_issues_both_barriers() {
    let mut f = journaled_fixture(16, 1, 1);
    f.commit(make_txn(1, &[(500, marked(b"DATA"))])).unwrap();
    assert!(f.flushes >= 2, "expected >= 2 barriers, got {}", f.flushes);
}

#[test]
fn commit_flushes_ordered_data_to_disk() {
    let mut f = journaled_fixture(32, 1, 1);
    let mut txn = make_txn(1, &[(500, marked(b"META"))]);
    let data = OrderedData {
        ino: 11,
        len: BLOCK_SIZE as u64,
    };
    txn.register_ordered_data(data);
    f.commit(txn).unwrap();
    assert_eq!(f.ordered, vec![data]);
    assert!(f.flushes >= 3, "expected >= 3 barriers, got {}", f.flushes);
    assert_eq!(f.flushes, 4);
}

#[test]
fn ordered_data_is_kept_once_for_each_inode() {
    let mut txn = Transaction::new(Tid::new(1));
    let data = |ino, len| OrderedData { ino, len };
    txn.register_ordered_data(data(11, 100));
    txn.register_ordered_data(data(12, 200));
    txn.register_ordered_data(data(11, 300));
    assert_eq!(txn.nr_ordered_data(), 2);
    assert_eq!(txn.ordered, vec![data(11, 300), data(12, 200)]);
}

#[test]
fn block_map_ends_with_the_log() {
    let geo = loaded(&journal_super(16, 1, 1, 0), 40);
    assert_eq!(geo.log_block_to_physical(15), Some(JOURNAL_START_BLOCK + 15));
    assert_eq!(geo.log_block_to_physical(16), None);
    assert_eq!(geo.log_block_to_physical(39), None);
    assert!(geo.log_block(16).is_err());
}

#[test]
fn walk_over_a_log_in_circles_ends() {
    let mut f = journaled_fixture(16, 1, 1);
    let mut head = Vec::new();
    for word in [JBD2_MAGIC, BLOCKTYPE_REVOKE, 1] {
        head.extend_from_slice(&word.to_be_bytes());
    }
    for log in 1..16 {
        f.blocks.insert(JOURNAL_START_BLOCK + log, marked(&head));
    }
    let revoked = RevokeTable::new();
    let mut walk = ApplyWalk::start(&f.geo, 1, Tid::new(1)).unwrap();
    let mut steps = 0;
    let end = loop {
        let bytes = f.read_log(walk.log);
        let consumed = walk.consumed;
        match walk.on_block(&f.geo, &revoked, &bytes).next {
            ApplyNext::Read(next) => {
                assert!(next.consumed > consumed);
                steps += 1;
                walk = next;
            }
            ApplyNext::Done(_) => panic!("the chain has no end"),
            ApplyNext::Failed(e) => break e,
        }
    };
    assert_eq!(end, Error::ChainTooLong);
    assert_eq!(steps, 16);
    f.state.tail_block = Some(1);
    f.state.committed_tid = Tid::new(1);
    assert_eq!(f.checkpoint(None), Err(Error::ChainTooLong));
}

#[test]
fn log_starts_in_its_ring() {
    for (start, good) in [(0, true), (3, false), (4, true), (15, true), (16, false)] {
        let geo = loaded(&journal_super(16, 4, 1, start), 16);
        assert_eq!(geo.starts_in_ring(), good, "start {start}");
    }
}

#[test]
fn dropped_images_are_at_home() {
    let mut f = journaled_fixture(64, 1, 1);
    let old = marked(b"old");
    let new = marked(b"new");
    let other = marked(b"other");
    f.commit(make_txn(1, &[(500, old), (501, other)])).unwrap();
    f.commit(make_txn(2, &[(500, new)])).unwrap();
    assert_eq!(f.state.uncheckpointed.keys(), vec![500, 501]);
    let kept = f.state.uncheckpointed.get(500).unwrap();
    assert_eq!((kept.tid, *kept.value), (Tid::new(2), new));
    assert_eq!(f.checkpoint(None), Ok(true));
    assert!(f.state.uncheckpointed.keys().is_empty());
    assert_eq!(f.read(500), new);
    assert_eq!(f.read(501), other);
}

#[test]
fn commit_omits_forgotten_block_and_publishes_revoke() {
    let mut f = journaled_fixture(16, 1, 1);
    let (freed, kept) = (500u64, 700u64);
    let kept_img = marked(b"KEPT-IMG");
    let mut txn = make_txn(1, &[(freed, marked(b"FREEDIMG")), (kept, kept_img)]);
    txn.forget_block(freed);
    f.commit(txn).unwrap();

    let revoke = f.read_log(1);
    let header = f.log_header(1);
    assert_eq!(header.h_magic, JBD2_MAGIC);
    assert_eq!(header.h_blocktype, BLOCKTYPE_REVOKE);
    assert_eq!(header.h_sequence, 1);
    assert_eq!(&revoke[12..16], &[0, 0, 0, 20]);
    assert_eq!(&revoke[16..20], &(freed as u32).to_be_bytes());

    assert_eq!(f.log_header(2).h_blocktype, BLOCKTYPE_DESCRIPTOR);
    let tag0 = f.tag(2, 0);
    assert_eq!(tag0.blocknr(), kept);
    assert_ne!(tag0.flags() & TAG_FLAG_LAST_TAG, 0);
    assert_eq!(f.read_log(3), kept_img);
    assert_eq!(f.log_header(4).h_blocktype, BLOCKTYPE_COMMIT);
    assert_eq!(f.state.head, 5);

    assert_eq!(f.state.revoked.records.len(), 1);
    f.checkpoint(None).unwrap();
    assert_eq!(f.state.revoked.records.len(), 0);
    assert_eq!(f.read(kept), kept_img);
}

#[test]
fn commit_refuses_wide_revoke_on_v0_layout() {
    let mut f = journaled_fixture(16, 1, 1);
    let before = f.read_log(1);
    let mut txn = make_txn(1, &[(700, [0u8; BLOCK_SIZE])]);
    txn.forget_block((1 << 32) | 5);
    let err = f.commit(txn).unwrap_err();
    assert_eq!(err, Error::RevokeTooWide);
    assert_eq!(err.error(), Errno::EFBIG);
    assert_eq!(f.read_log(1), before);
    assert!(f.state.is_aborted());
}

#[test]
fn commit_without_ordered_data_skips_data_barrier() {
    let mut f = journaled_fixture(16, 1, 1);
    let txn = make_txn(1, &[(500, marked(b"META"))]);
    assert_eq!(txn.ordered.len(), 0);
    f.commit(txn).unwrap();
    assert_eq!(f.flushes, 3, "expected exactly 3 barriers (no data barrier)");
}

fn indexed_block(i: u64) -> Block {
    let mut b = [0u8; BLOCK_SIZE];
    b[..8].copy_from_slice(&i.to_le_bytes());
    b[8..16].copy_from_slice(b"FREESEG!");
    b
}

fn indexed_txn(tid: u32, first_dest: u64, n: u64) -> Transaction {
    let blocks: Vec<(u64, Block)> = (0..n).map(|i| (first_dest + i, indexed_block(i))).collect();
    make_txn(tid, &blocks)
}

fn committing(f: &Fixture) -> Option<(Tid, CommitPhase)> {
    f.state.committing.as_ref().map(|c| (c.txn.tid(), c.phase))
}

#[test]
fn commit_refuses_chain_crossing_uncheckpointed_tail() {
    let mut f = journaled_fixture(16, 1, 1);
    f.commit(indexed_txn(1, 500, 1)).unwrap();
    assert_eq!(f.state.head, 4);
    assert_eq!(f.state.tail_block, Some(1));

    f.stage(indexed_txn(2, 1000, 11));
    let before: Vec<Block> = (1u32..4).map(|log| f.read_log(log)).collect();
    assert_eq!(f.attempt(), Ok(false));
    let after: Vec<Block> = (1u32..4).map(|log| f.read_log(log)).collect();
    assert_eq!(before, after, "the refused commit must not touch the tail");
    assert_eq!(f.state.head, 4);
    assert_eq!(f.state.tail_block, Some(1));
    assert_eq!(f.state.committed_tid, Tid::new(1));
    assert_eq!(committing(&f), Some((Tid::new(2), CommitPhase::Locked)));

    f.checkpoint(None).unwrap();
    assert_eq!(f.attempt(), Ok(true));
    assert_eq!(f.state.committed_tid, Tid::new(2));
    assert_eq!(committing(&f), Some((Tid::new(2), CommitPhase::Finished)));
    f.state.finish_commit(false);

    f.checkpoint(None).unwrap();
    assert_eq!(f.read(1000), indexed_block(0));
}

#[test]
fn commit_fills_wrapped_free_segment_exactly() {
    let mut f = journaled_fixture(16, 1, 1);
    f.commit(indexed_txn(1, 500, 8)).unwrap();
    f.checkpoint(None).unwrap();
    assert_eq!(f.state.head, 11);

    f.commit(indexed_txn(2, 600, 6)).unwrap();
    assert_eq!(f.state.head, 4);
    assert_eq!(f.state.tail_block, Some(11));

    f.stage(indexed_txn(3, 700, 5));
    assert_eq!(f.attempt(), Ok(true));
    f.state.finish_commit(false);
    assert_eq!(f.state.head, 11);

    let tail_desc = f.read_log(11);
    f.stage(indexed_txn(4, 800, 1));
    assert_eq!(f.attempt(), Ok(false));
    f.state.finish_commit(false);
    assert_eq!(f.read_log(11), tail_desc);

    f.checkpoint(None).unwrap();
    for (first_dest, n) in [(600u64, 6u64), (700, 5)] {
        for i in 0..n {
            assert_eq!(
                f.read(first_dest + i),
                indexed_block(i),
                "dest {}",
                first_dest + i
            );
        }
    }
}

#[test]
fn commit_of_nothing_is_refused() {
    let mut f = journaled_fixture(16, 1, 1);
    f.state.running = Some(Transaction::new(Tid::new(1)));
    assert_eq!(f.state.poll_commit_action(), None);
    assert_eq!(f.state.stage_commit(), None);
    assert_eq!(f.state.stage_unmount(), None);
    assert!(f.state.running.is_none());
    assert_eq!(f.attempt(), Err(Error::PhaseOrder));
    assert_eq!(
        f.state
            .advance_committing_phase(Tid::new(1), CommitPhase::Flush),
        Err(Error::PhaseOrder)
    );
}

#[test]
fn checkpoint_applies_after_image_and_cleans_journal() {
    let mut f = journaled_fixture(16, 1, 1);
    let dest = 500u64;
    let mut after = marked(b"AFTERIMG");
    after[BLOCK_SIZE - 4..].copy_from_slice(b"TAIL");
    f.commit(make_txn(1, &[(dest, after)])).unwrap();
    let committed = f.state.committed_tid;
    assert_eq!(committed, Tid::new(1));
    assert_eq!(f.read(dest), [0u8; BLOCK_SIZE]);
    assert_ne!(f.read_super().word(S_START), 0);

    let head_before = f.state.head;
    f.checkpoint(None).unwrap();
    assert_eq!(f.read(dest), after);
    let sb = f.read_super();
    assert_eq!(sb.word(S_START), 0);
    assert_eq!(sb.word(S_SEQUENCE), committed.next().get());
    assert_eq!(sb.word(S_HEAD), head_before);
    assert_eq!(f.state.tail_block, None);
}

#[test]
fn checkpoint_restores_escaped_block() {
    let mut f = journaled_fixture(16, 1, 1);
    let mut original = marked(&JBD2_MAGIC.to_be_bytes());
    original[4..8].copy_from_slice(b"REST");
    f.commit(make_txn(1, &[(600, original)])).unwrap();
    f.checkpoint(None).unwrap();
    assert_eq!(f.read(600), original);
}

#[test]
fn checkpoint_newest_wins_on_shared_block() {
    let mut f = journaled_fixture(24, 1, 1);
    f.commit(make_txn(1, &[(700, marked(b"CONTENTA"))])).unwrap();
    f.commit(make_txn(2, &[(700, marked(b"CONTENTB"))])).unwrap();
    assert_eq!(f.state.committed_tid, Tid::new(2));
    f.checkpoint(None).unwrap();
    assert_eq!(f.read(700), marked(b"CONTENTB"));
    assert_eq!(f.read_super().word(S_START), 0);
}

#[test]
fn checkpoint_then_commit_reclaims_cleanly() {
    let mut f = journaled_fixture(16, 1, 1);
    f.commit(make_txn(1, &[(500, marked(b"ONE0"))])).unwrap();
    f.checkpoint(None).unwrap();
    assert_eq!(f.read_super().word(S_START), 0);
    assert_eq!(f.state.tail_block, None);

    let c2 = marked(b"TWO0");
    f.commit(make_txn(2, &[(800, c2)])).unwrap();
    assert_eq!(f.state.committed_tid, Tid::new(2));
    assert_ne!(f.read_super().word(S_START), 0);
    assert_ne!(f.state.tail_block, None);
    assert_eq!(f.read(800), [0u8; BLOCK_SIZE]);

    f.checkpoint(None).unwrap();
    assert_eq!(f.read(800), c2);
    assert_eq!(f.read_super().word(S_START), 0);
    assert_eq!(f.read_super().word(S_SEQUENCE), 3);
}

#[test]
fn apply_log_transaction_is_idempotent() {
    let mut f = journaled_fixture(16, 1, 1);
    let after = marked(b"IDEMPOT!");
    f.commit(make_txn(1, &[(900, after)])).unwrap();
    let start = f.geo.first();
    let none = RevokeTable::new();

    let next1 = f.apply(start, Tid::new(1), &none).unwrap();
    assert_eq!(f.read(900), after);
    f.blocks.insert(900, [0u8; BLOCK_SIZE]);
    let next2 = f.apply(start, Tid::new(1), &none).unwrap();
    assert_eq!(f.read(900), after);
    assert_eq!(next1, next2);
}

#[test]
fn apply_refuses_what_is_no_chain() {
    let mut f = journaled_fixture(16, 1, 1);
    let none = RevokeTable::new();
    f.commit(make_txn(1, &[(900, marked(b"x"))])).unwrap();
    assert_eq!(f.apply(1, Tid::new(2), &none), Err(Error::ChainBadTid));
    assert_eq!(f.apply(2, Tid::new(1), &none), Err(Error::ChainBadMagic));
    assert_eq!(
        f.apply(16, Tid::new(1), &none),
        Err(Error::LogBlockOutOfRange)
    );
    let mut odd = f.read_log(1);
    odd[7] = 3;
    f.blocks.insert(JOURNAL_START_BLOCK + 1, odd);
    assert_eq!(f.apply(1, Tid::new(1), &none), Err(Error::ChainBadType));
}

#[test]
fn apply_detects_corruption_under_checksums() {
    let mut raw = journal_super(16, 1, 1, 0);
    raw.set_word(S_FEATURE_INCOMPAT, INCOMPAT_CSUM_V3 | INCOMPAT_64BIT);
    raw.bytes[S_CHECKSUM_TYPE] = JBD2_CRC32C_CHKSUM;
    let csum = raw.checksum();
    raw.set_word(S_CHECKSUM, csum);
    let mut f = journal_with(raw);
    let wide = (1u64 << 32) | 900;
    f.commit(make_txn(1, &[(wide, marked(b"payload"))])).unwrap();
    let none = RevokeTable::new();
    assert_eq!(f.apply(1, Tid::new(1), &none), Ok(4));
    assert_eq!(f.read(wide), marked(b"payload"));

    let mut data = f.read_log(2);
    data[100] ^= 1;
    f.blocks.insert(JOURNAL_START_BLOCK + 2, data);
    assert_eq!(f.apply(1, Tid::new(1), &none), Err(Error::DataChecksum));

    let mut descriptor = f.read_log(1);
    descriptor[100] ^= 1;
    f.blocks.insert(JOURNAL_START_BLOCK + 1, descriptor);
    assert_eq!(
        f.apply(1, Tid::new(1), &none),
        Err(Error::DescriptorChecksum)
    );
}

#[test]
fn checkpoint_suppresses_revoked_block_over_reuse() {
    let mut f = journaled_fixture(24, 1, 1);
    let (freed, control, bitmapish) = (500u64, 501u64, 600u64);
    let t1_control = marked(b"T1KEEP00");
    f.commit(make_txn(
        1,
        &[(freed, marked(b"T1FREED!")), (control, t1_control)],
    ))
    .unwrap();
    let mut t2 = make_txn(2, &[(bitmapish, [0x22u8; BLOCK_SIZE])]);
    t2.forget_block(freed);
    f.commit(t2).unwrap();
    assert_eq!(f.state.revoked.records.len(), 1);

    let reused = [0xEEu8; BLOCK_SIZE];
    f.blocks.insert(freed, reused);
    f.checkpoint(None).unwrap();
    assert_eq!(f.read(freed), reused);
    assert_eq!(f.read(control), t1_control);
    assert_eq!(f.read(bitmapish), [0x22u8; BLOCK_SIZE]);
    assert_eq!(f.read_super().word(S_START), 0);
    assert_eq!(f.state.revoked.records.len(), 0);
}

#[test]
fn checkpoint_applies_image_newer_than_revoke() {
    let mut f = journaled_fixture(24, 1, 1);
    let (reborn, bitmapish) = (500u64, 600u64);
    let mut t1 = make_txn(1, &[(bitmapish, [0x11u8; BLOCK_SIZE])]);
    t1.forget_block(reborn);
    f.commit(t1).unwrap();
    let t2_img = marked(b"T2REBORN");
    f.commit(make_txn(2, &[(reborn, t2_img)])).unwrap();
    f.checkpoint(None).unwrap();
    assert_eq!(f.read(reborn), t2_img);
}

/// A log with T1, which has `freed` and `control`, and T2, which has forgotten
/// `freed` and is not committed; `freed` holds other data by now.
fn deferring_fixture() -> (Fixture, Transaction, Block) {
    let mut f = journaled_fixture(24, 1, 1);
    let t1_control = marked(b"T1KEEP00");
    f.commit(make_txn(
        1,
        &[(500, marked(b"T1FREED!")), (501, t1_control)],
    ))
    .unwrap();
    let mut t2 = make_txn(2, &[(600, [0x22u8; BLOCK_SIZE])]);
    t2.forget_block(500);
    f.blocks.insert(500, [0xEEu8; BLOCK_SIZE]);
    (f, t2, t1_control)
}

fn assert_deferred(f: &Fixture) {
    assert_eq!(f.read(500), [0xEEu8; BLOCK_SIZE]);
    assert_eq!(f.read(501), [0u8; BLOCK_SIZE]);
    assert_eq!(f.read_super().word(S_START), 1);
    assert_eq!(f.state.tail_block, Some(1));
    assert_eq!(f.state.tail_tid, Tid::new(1));
}

fn assert_reclaimed(f: &Fixture, control: Block) {
    assert_eq!(f.read(500), [0xEEu8; BLOCK_SIZE]);
    assert_eq!(f.read(501), control);
    assert_eq!(f.read(600), [0x22u8; BLOCK_SIZE]);
    assert_eq!(f.read_super().word(S_START), 0);
    assert_eq!(f.state.tail_block, None);
    assert_eq!(f.state.revoked.records.len(), 0);
}

#[test]
fn checkpoint_defers_across_unpublished_revoke() {
    let (mut f, t2, control) = deferring_fixture();
    f.state.next_tid = Tid::new(3);
    f.state.running = Some(t2);
    assert_eq!(f.state.revoked.records.len(), 0);
    f.checkpoint(None).unwrap();
    assert_deferred(&f);

    let t2 = f.state.running.take().unwrap();
    f.commit(t2).unwrap();
    assert_eq!(f.state.revoked.records.len(), 1);
    f.checkpoint(None).unwrap();
    assert_reclaimed(&f, control);
}

#[test]
fn checkpoint_defers_on_the_committing_slots_unpublished_revoke() {
    let (mut f, t2, control) = deferring_fixture();
    f.stage(t2);
    assert!(f.state.running.is_none());
    assert_eq!(f.state.revoked.records.len(), 0);
    f.checkpoint(None).unwrap();
    assert_deferred(&f);

    assert_eq!(f.attempt(), Ok(true));
    f.state.finish_commit(false);
    assert_eq!(f.state.revoked.records.len(), 1);
    f.checkpoint(None).unwrap();
    assert_reclaimed(&f, control);
}

#[test]
fn checkpoint_defers_on_the_locking_seats_unpublished_revoke() {
    let (mut f, t2, control) = deferring_fixture();
    f.state.next_tid = Tid::new(3);
    f.state.running = Some(t2);
    f.state.lock_running();
    assert!(f.state.locking.is_some());
    assert_eq!(f.state.open_op(), Ok(None));
    f.checkpoint(None).unwrap();
    assert_deferred(&f);

    let t2 = f.state.locking.take().unwrap();
    f.commit(t2).unwrap();
    assert_eq!(f.state.revoked.records.len(), 1);
    f.checkpoint(None).unwrap();
    assert_reclaimed(&f, control);
}

#[test]
fn checkpoint_partial_prefix_stops_before_deferred_txn() {
    let mut f = journaled_fixture(24, 1, 1);
    let (clean_dest, freed, bitmapish) = (700u64, 500u64, 600u64);
    let t1_img = marked(b"T1CLEAN0");
    f.commit(make_txn(1, &[(clean_dest, t1_img)])).unwrap();
    f.commit(make_txn(2, &[(freed, marked(b"T2FREED0"))])).unwrap();
    let mut t3 = make_txn(3, &[(bitmapish, [0x33u8; BLOCK_SIZE])]);
    t3.forget_block(freed);
    f.state.next_tid = Tid::new(4);
    f.state.running = Some(t3);
    let reused = [0xEEu8; BLOCK_SIZE];
    f.blocks.insert(freed, reused);

    f.checkpoint(None).unwrap();
    assert_eq!(f.read(clean_dest), t1_img);
    assert_eq!(f.read(freed), reused);
    let sb = f.read_super();
    assert_eq!(sb.word(S_START), 4);
    assert_eq!(sb.word(S_SEQUENCE), 2);
    assert_eq!(f.state.tail_block, Some(4));
    assert_eq!(f.state.tail_tid, Tid::new(2));

    let t3 = f.state.running.take().unwrap();
    f.commit(t3).unwrap();
    f.checkpoint(None).unwrap();
    assert_eq!(f.read(freed), reused);
    assert_eq!(f.read(bitmapish), [0x33u8; BLOCK_SIZE]);
    assert_eq!(f.read_super().word(S_START), 0);
    assert_eq!(f.state.tail_block, None);
    assert_eq!(f.state.revoked.records.len(), 0);
}

#[test]
fn defer_decision_walks_revoke_led_chain() {
    let mut f = journaled_fixture(24, 1, 1);
    let t1_control = marked(b"T1KEEP00");
    let mut t1 = make_txn(1, &[(500, marked(b"T1FREED!")), (501, t1_control)]);
    t1.forget_block(900);
    f.commit(t1).unwrap();
    let mut t2 = make_txn(2, &[(600, [0x22u8; BLOCK_SIZE])]);
    t2.forget_block(500);
    f.state.next_tid = Tid::new(3);
    f.state.running = Some(t2);
    f.blocks.insert(500, [0xEEu8; BLOCK_SIZE]);

    f.checkpoint(None).unwrap();
    assert_deferred(&f);

    let t2 = f.state.running.take().unwrap();
    f.commit(t2).unwrap();
    f.checkpoint(None).unwrap();
    assert_reclaimed(&f, t1_control);
}

#[test]
fn pinning_closes_the_mid_pass_reuse_window() {
    let mut f = journaled_fixture(32, 1, 1);
    let b = 900u64;
    let op1 = f.open();
    let access = f.state.get_create_access(op1, b).unwrap();
    f.state.patch(access, 0, &[0x51; BLOCK_SIZE]).unwrap();
    f.state.close_op(op1).unwrap();
    f.commit_now().unwrap();
    assert!(f.state.tail_block.is_some());

    let op2 = f.open();
    let bitmap = f.write_access(op2, 950);
    f.state.patch(bitmap, 0, &[1]).unwrap();
    f.state.forget(op2, ForgetKind::Metadata, b).unwrap();
    let pin = PinnedFree {
        tid: op2.tid().unwrap(),
        start: b,
        count: 1,
    };
    assert_eq!(f.state.pinned_frees, vec![pin]);

    f.checkpoint(None).unwrap();
    assert!(f.state.tail_block.is_some());
    assert_eq!(f.read(b), [0u8; BLOCK_SIZE]);

    f.state.close_op(op2).unwrap();
    f.commit_now().unwrap();
    assert!(f.state.pinned_frees.is_empty());

    f.checkpoint(None).unwrap();
    assert_eq!(f.state.tail_block, None);
    assert_eq!(f.read(b), [0u8; BLOCK_SIZE]);
}

#[test]
fn freed_data_is_neither_revoked_nor_pinned() {
    let mut f = journaled_fixture(32, 1, 1);
    let op = f.open();
    f.state.forget(op, ForgetKind::Data, 900).unwrap();
    assert!(f.state.pinned_frees.is_empty());
    assert!(f.state.running.as_ref().unwrap().revokes.is_empty());
}

#[test]
fn checkpoint_advance_stops_at_the_free_target() {
    let mut f = journaled_fixture(24, 1, 1);
    let dests = [500u64, 501, 502];
    let mut contents = [[0u8; BLOCK_SIZE]; 3];
    for (i, c) in contents.iter_mut().enumerate() {
        c[..8].copy_from_slice(&[0xA0 + i as u8; 8]);
        f.commit(make_txn(i as u32 + 1, &[(dests[i], *c)])).unwrap();
    }
    assert_eq!(f.state.committed_tid, Tid::new(3));
    assert_eq!(f.state.tail_block, Some(1));

    assert_eq!(f.checkpoint(Some(15)), Ok(true));
    assert_eq!(f.read(dests[0]), contents[0]);
    assert_eq!(f.read(dests[1]), [0u8; BLOCK_SIZE], "T2 not yet");
    let sb = f.read_super();
    assert_ne!(sb.word(S_START), 0);
    assert_eq!(sb.word(S_SEQUENCE), 2);
    assert_eq!(f.state.tail_tid, Tid::new(2));

    assert_eq!(f.checkpoint(Some(15)), Ok(false));

    f.checkpoint(None).unwrap();
    assert_eq!(f.read(dests[1]), contents[1]);
    assert_eq!(f.read(dests[2]), contents[2]);
    assert_eq!(f.read_super().word(S_START), 0);
    assert_eq!(f.state.tail_block, None);
}

#[test]
fn checkpoint_suppresses_across_a_deep_log() {
    let mut f = journaled_fixture(40, 1, 1);
    let (freed, control) = (500u64, 501u64);
    let t1_control = marked(b"T1KEEP00");
    f.commit(make_txn(
        1,
        &[(freed, marked(b"T1FREED!")), (control, t1_control)],
    ))
    .unwrap();
    f.commit(make_txn(2, &[(600, [0x22u8; BLOCK_SIZE])])).unwrap();
    let mut t3 = make_txn(3, &[(601, [0x33u8; BLOCK_SIZE])]);
    t3.forget_block(freed);
    f.commit(t3).unwrap();
    f.commit(make_txn(4, &[(602, [0x44u8; BLOCK_SIZE])])).unwrap();
    assert_eq!(f.state.committed_tid, Tid::new(4));
    assert_eq!(f.state.revoked.records.len(), 1);
    let reused = [0xEEu8; BLOCK_SIZE];
    f.blocks.insert(freed, reused);

    f.checkpoint(None).unwrap();
    assert_eq!(f.read(freed), reused);
    assert_eq!(f.read(control), t1_control);
    assert_eq!(f.read(600), [0x22u8; BLOCK_SIZE]);
    assert_eq!(f.read(601), [0x33u8; BLOCK_SIZE]);
    assert_eq!(f.read(602), [0x44u8; BLOCK_SIZE]);
    assert_eq!(f.read_super().word(S_START), 0);
    assert_eq!(f.state.revoked.records.len(), 0);
}

#[test]
fn load_geometry_end_to_end() {
    let location = JournalLocation {
        has_journal: true,
        journal_ino: JOURNAL_INO,
        journal_dev: 0,
    };
    assert_eq!(locate_journal(location), Ok(Some(JOURNAL_INO)));
    let mut mapper = BlockMapper::start(true, 2 * BLOCK_SIZE as u64).unwrap();
    assert_eq!(mapper.wanted(), Some(0));
    mapper
        .on_mapping(Mapping::Mapped {
            pblock: JOURNAL_START_BLOCK,
            len: 5,
            written: true,
        })
        .unwrap();
    assert_eq!(mapper.wanted(), None);
    let geo = JournalGeometry::load(mapper.map, &journal_super(2, 1, 1, 0)).unwrap();
    assert_eq!(geo.maxlen(), 2);
    assert_eq!(geo.first(), 1);
    assert_eq!(geo.sequence(), Tid::new(1));
    assert_eq!(geo.start(), 0);
    assert_eq!(geo.blocksize(), BLOCK_SIZE as u32);
    assert_eq!(geo.log_block_to_physical(0), Some(JOURNAL_START_BLOCK));
    assert_eq!(geo.log_block_to_physical(1), Some(JOURNAL_START_BLOCK + 1));
    assert_eq!(geo.log_block_to_physical(2), None);
    assert_eq!(geo.log_block(2), Err(Error::LogBlockOutOfRange));
    assert_eq!(geo.superblock_block(), Ok(JOURNAL_START_BLOCK));
}

#[test]
fn journal_location_is_checked() {
    let location = |journal_ino, journal_dev| JournalLocation {
        has_journal: true,
        journal_ino,
        journal_dev,
    };
    assert_eq!(
        locate_journal(location(9, 0)),
        Err(Error::UnsupportedJournalInode)
    );
    assert_eq!(locate_journal(location(8, 1)), Err(Error::ExternalJournal));
    assert_eq!(
        BlockMapper::start(false, 8192).err(),
        Some(Error::JournalNotExtents)
    );
    assert_eq!(
        BlockMapper::start(true, 4096).err(),
        Some(Error::JournalInodeTooSmall)
    );
    assert_eq!(
        BlockMapper::start(true, 1 << 45).err(),
        Some(Error::JournalInodeTooLarge)
    );
    let mut mapper = BlockMapper::start(true, 8192).unwrap();
    assert_eq!(
        mapper.on_mapping(Mapping::Hole { len: 1 }),
        Err(Error::JournalUnmappedBlock)
    );
    let unwritten = Mapping::Mapped {
        pblock: 5,
        len: 1,
        written: false,
    };
    assert_eq!(
        mapper.on_mapping(unwritten),
        Err(Error::JournalUnmappedBlock)
    );
    assert_eq!(
        load(&journal_super(4, 1, 1, 0), 3).err(),
        Some(Error::MaxlenExceedsMap)
    );
}

#[test]
fn load_geometry_admission_matches_supp_set() {
    let with_features = |features: u32| {
        let mut raw = journal_super(2, 1, 1, 0);
        raw.set_word(S_FEATURE_INCOMPAT, features);
        if features & (INCOMPAT_CSUM_V2 | INCOMPAT_CSUM_V3) != 0 {
            raw.bytes[S_CHECKSUM_TYPE] = JBD2_CRC32C_CHKSUM;
            let csum = raw.checksum();
            raw.set_word(S_CHECKSUM, csum);
        }
        load(&raw, 2)
    };
    for features in [
        0,
        INCOMPAT_REVOKE,
        INCOMPAT_64BIT,
        INCOMPAT_CSUM_V3,
        INCOMPAT_CSUM_V3 | INCOMPAT_64BIT,
        INCOMPAT_CSUM_V2,
        INCOMPAT_CSUM_V2 | INCOMPAT_64BIT,
    ] {
        let geo = match with_features(features) {
            Ok(geo) => geo,
            Err(e) => panic!("features {features:#x} refused: {e:?}"),
        };
        assert_eq!(
            geo.csum_seed().is_some(),
            features & (INCOMPAT_CSUM_V2 | INCOMPAT_CSUM_V3) != 0,
            "features {features:#x}"
        );
    }
    for features in [0x4u32, 0x20u32] {
        let err = with_features(features).err();
        assert_eq!(err, Some(Error::UnsupportedIncompat));
        assert_eq!(Error::UnsupportedIncompat.error(), Errno::EINVAL);
    }
    let err = with_features(INCOMPAT_CSUM_V2 | INCOMPAT_CSUM_V3).err();
    assert_eq!(err, Some(Error::BothCsumV2V3));
    assert_eq!(Error::BothCsumV2V3.error(), Errno::EINVAL);
}

#[test]
fn load_geometry_refuses_journal_ro_compat_bits() {
    let mut raw = journal_super(2, 1, 1, 0);
    raw.set_word(S_FEATURE_RO_COMPAT, 0x1);
    assert_eq!(load(&raw, 2).err(), Some(Error::UnsupportedRoCompat));
    assert_eq!(Error::UnsupportedRoCompat.error(), Errno::EINVAL);
}

#[test]
fn load_geometry_admits_v1_journal_regardless_of_feature_bits() {
    let mut raw = journal_super(2, 1, 1, 0);
    raw.set_word(H_BLOCKTYPE, BLOCKTYPE_SUPERBLOCK_V1);
    raw.set_word(S_FEATURE_INCOMPAT, 0x20);
    raw.set_word(S_FEATURE_RO_COMPAT, 0xFF);
    let geo = loaded(&raw, 2);
    assert_eq!(geo.tag_layout(), layout_of(0));
    assert!(geo.csum_seed().is_none());
}

#[test]
fn load_geometry_without_journal_is_none() {
    let location = JournalLocation {
        has_journal: false,
        journal_ino: 0,
        journal_dev: 0,
    };
    assert_eq!(locate_journal(location), Ok(None));
}

#[test]
fn commit_thread_end_to_end() {
    let mut f = journaled_fixture(16, 1, 1);
    let handle = f.open();
    let running = handle.tid().unwrap();
    let access = f.state.get_create_access(handle, 500).unwrap();
    f.state.patch(access, 0, b"META").unwrap();
    assert_eq!(f.state.poll_commit_action(), None);
    f.state.close_op(handle).unwrap();
    assert_eq!(f.state.poll_log_commit(running), None);
    f.commit_now().unwrap();
    assert_eq!(f.state.poll_log_commit(running), Some(Ok(())));
    assert_eq!(f.state.committed_tid, running);

    let desc = f.log_header(1);
    assert_eq!(desc.h_magic, JBD2_MAGIC);
    assert_eq!(desc.h_blocktype, BLOCKTYPE_DESCRIPTOR);
    assert_eq!(desc.h_sequence, running.get());
    assert_eq!(f.tag(1, 0).blocknr(), 500);
    let commit = f.log_header(3);
    assert_eq!(commit.h_blocktype, BLOCKTYPE_COMMIT);
    assert_eq!(commit.h_sequence, running.get());
    assert!(f.state.running.is_none());

    f.state.request_stop();
    assert!(f.state.is_stopped());
    assert_eq!(f.state.poll_commit_action(), Some(CommitAction::Exit));
}

#[test]
fn log_wait_commit_returns_when_already_committed() {
    let mut f = journaled_fixture(16, 1, 1);
    let tid = f.commit(make_txn(1, &[(500, marked(b"META"))])).unwrap();
    assert_eq!(f.state.poll_log_commit(tid), Some(Ok(())));
    assert_eq!(f.state.poll_log_commit(tid), Some(Ok(())));
}

#[test]
fn teardown_with_no_work_is_prompt() {
    let mut f = journaled_fixture(16, 1, 1);
    f.state.request_stop();
    assert_eq!(f.state.poll_commit_action(), Some(CommitAction::Exit));
    f.state.request_stop();
    assert_eq!(f.state.poll_commit_action(), Some(CommitAction::Exit));
}

const CAPTURE_BLOCK: u64 = 300;

fn running_bytes(f: &Fixture, block: u64) -> Block {
    *f.state
        .running
        .as_ref()
        .unwrap()
        .buffer_bytes(block)
        .unwrap()
}

#[test]
fn funnel_write_access_seeds_from_device_then_patches() {
    let mut f = journaled_fixture(16, 1, 1);
    let mut on_disk = [0u8; BLOCK_SIZE];
    on_disk[0] = 0x11;
    on_disk[BLOCK_SIZE - 1] = 0x22;
    f.blocks.insert(CAPTURE_BLOCK, on_disk);

    let handle = f.open();
    assert_eq!(
        f.state.get_write_access(handle, CAPTURE_BLOCK),
        Ok(AccessStep::NeedsBlock)
    );
    let access = f.write_access(handle, CAPTURE_BLOCK);
    f.state.patch(access, 4, &[0xAB]).unwrap();
    let captured = running_bytes(&f, CAPTURE_BLOCK);
    assert_eq!(captured[0], 0x11);
    assert_eq!(captured[BLOCK_SIZE - 1], 0x22);
    assert_eq!(captured[4], 0xAB);
    assert_eq!(f.state.newest_bytes(CAPTURE_BLOCK), Some(captured));
    f.state.close_op(handle).unwrap();
}

#[test]
fn funnel_create_access_zeroes_and_accumulates() {
    let mut f = journaled_fixture(16, 1, 1);
    f.blocks.insert(CAPTURE_BLOCK, [0xFF; BLOCK_SIZE]);
    let handle = f.open();
    let access = f.state.get_create_access(handle, CAPTURE_BLOCK).unwrap();
    f.state.patch(access, 0, &[1]).unwrap();
    let again = f.write_access(handle, CAPTURE_BLOCK);
    f.state.patch(again, 1, &[2]).unwrap();
    let captured = running_bytes(&f, CAPTURE_BLOCK);
    assert_eq!(captured[0], 1);
    assert_eq!(captured[1], 2);
    assert_eq!(captured[2], 0);
    f.state.close_op(handle).unwrap();
}

#[test]
fn funnel_without_handle_is_inert() {
    let mut f = journaled_fixture(16, 1, 1);
    let access = f.write_access(OpHandle::none(), CAPTURE_BLOCK);
    assert!(!access.is_live());
    f.state.patch(access, 0, &[1]).unwrap();
    assert!(f.state.running.is_none());
    assert_eq!(f.state.newest_bytes(CAPTURE_BLOCK), None);
}

#[test]
fn apply_patch_without_capture_errors_defensively() {
    let mut f = journaled_fixture(16, 1, 1);
    let handle = f.open();
    let txn = f.state.running.as_mut().unwrap();
    assert_eq!(
        txn.apply_patch(CAPTURE_BLOCK, 0, &[]),
        Err(Error::NotCaptured)
    );
    f.state.close_op(handle).unwrap();
    assert_eq!(
        f.state.close_op(handle),
        Err(Error::HandleOutlivedTransaction)
    );
}

#[test]
fn flush_on_unmount_commits_running_and_cleans_journal() {
    let mut f = journaled_fixture(16, 1, 1);
    let handle = f.open();
    let access = f.write_access(handle, 500);
    f.state.patch(access, 0, b"UNMOUNT!").unwrap();
    f.state.close_op(handle).unwrap();

    assert!(f.state.stage_unmount().is_some());
    assert_eq!(f.attempt(), Ok(true));
    f.state.finish_commit(false);
    f.state.check_checkpoint().unwrap();
    f.checkpoint(None).unwrap();

    assert_eq!(&f.read(500)[..8], b"UNMOUNT!");
    assert_eq!(f.read_super().word(S_START), 0);
    assert_eq!(f.state.tail_block, None);
    assert!(f.state.running.is_none());
}

#[test]
fn flush_on_unmount_with_no_work_is_noop() {
    let mut f = journaled_fixture(16, 1, 1);
    assert_eq!(f.state.stage_unmount(), None);
    assert_eq!(f.checkpoint(None), Ok(false));
    assert_eq!(f.state.tail_block, None);
}

#[test]
fn free_log_blocks_ring_distance() {
    let f = journaled_fixture(16, 1, 1);
    let geo = &f.geo;
    assert_eq!(geo.free_log_blocks(1, None), 15);
    assert_eq!(geo.free_log_blocks(9, None), 15);
    assert_eq!(geo.free_log_blocks(4, Some(1)), 12);
    assert_eq!(geo.free_log_blocks(4, Some(11)), 7);
    assert_eq!(geo.free_log_blocks(15, Some(1)), 1);
    assert_eq!(geo.free_log_blocks(1, Some(15)), 14);
    assert_eq!(geo.free_log_blocks(7, Some(7)), 0);
    assert_eq!(geo.next_log_block(15), 1);
    assert_eq!(geo.advance(14, 4), 3);
}

#[test]
fn commit_aborts_when_tail_cannot_drain() {
    let mut f = journaled_fixture(16, 1, 1);
    f.commit(make_txn(1, &[(500, marked(b"TAIL"))])).unwrap();
    let mut desc = f.read_log(1);
    desc[..4].fill(0xFF);
    f.blocks.insert(JOURNAL_START_BLOCK + 1, desc);
    let before = f.blocks.clone();

    let mut t2 = Transaction::new(Tid::new(2));
    for dest in 1000u64..1011 {
        t2.capture_create(dest);
        t2.apply_patch(dest, 0, b"OVER").unwrap();
    }
    f.state.next_tid = Tid::new(3);
    f.state.running = Some(t2);
    assert_eq!(f.commit_now(), Err(Error::ChainBadMagic));

    assert!(f.state.is_aborted());
    assert_eq!(before, f.blocks, "the refused commit must write nothing");
    assert_eq!(f.state.head, 4);
    assert_eq!(f.state.tail_block, Some(1));
    assert_eq!(f.state.committed_tid, Tid::new(1));
    assert_eq!(
        f.state.poll_log_commit(Tid::new(2)),
        Some(Err(Error::NeverCommits))
    );
    assert_eq!(Error::NeverCommits.error(), Errno::EIO);
    assert_eq!(f.state.open_op(), Err(Error::Aborted));
    assert_eq!(Error::Aborted.error(), Errno::EIO);
    assert_eq!(f.state.begin_op(), Err(Error::ReadOnly));
    assert_eq!(Error::ReadOnly.error(), Errno::EROFS);
    assert_eq!(f.state.check_checkpoint(), Err(Error::AbortedNoCheckpoint));
    assert_eq!(f.state.sync_target(), Err(Error::Aborted));
    assert_eq!(
        f.state.poll_transaction_room(Tid::new(2), 0),
        Some(Err(Error::AbortedWaitingForRoom))
    );
}

#[test]
fn drained_log_without_room_fails() {
    let step = commit_or_drain_tail(true, Ok(CommitAttempt::NeedsLogSpace));
    assert!(matches!(step, DrainStep::Failed(Error::NoRoomAfterDrain)));
    let step = commit_or_drain_tail(false, Ok(CommitAttempt::NeedsLogSpace));
    assert!(matches!(step, DrainStep::Drain));
}

#[test]
fn room_is_waited_for() {
    let mut f = journaled_fixture(16, 1, 1);
    let epoch = f.state.credit_release_epoch;
    assert_eq!(f.state.poll_transaction_room(Tid::new(1), epoch), None);
    f.state.note_credits_released();
    assert_eq!(
        f.state.poll_transaction_room(Tid::new(1), epoch),
        Some(Ok(()))
    );
    let handle = f.open();
    assert_eq!(f.state.sync_target(), Ok(None));
    let access = f.write_access(handle, 500);
    f.state.patch(access, 0, &[1]).unwrap();
    assert_eq!(f.state.sync_target(), Ok(Some(Tid::new(1))));
}

#[test]
fn credits_leave_room_for_descriptors_and_commit() {
    // 15 usable blocks: one descriptor and the commit block leave 13, of which
    // the share of further descriptors is taken.
    let f = journaled_fixture(16, 1, 1);
    assert_eq!(max_credits(&f.geo), 508 * 13 / 509);
    let f = journaled_fixture(2, 1, 1);
    assert_eq!(max_credits(&f.geo), 0);
}

#[test]
fn capture_after_commit_seeds_from_uncheckpointed_image() {
    let mut f = journaled_fixture(16, 1, 1);
    f.blocks.insert(500, [0xAA; BLOCK_SIZE]);
    let h1 = f.open();
    let access = f.write_access(h1, 500);
    f.state.patch(access, 0, &[0x11; 4]).unwrap();
    f.state.close_op(h1).unwrap();
    f.commit_now().unwrap();

    let h2 = f.open();
    let access = f.write_access(h2, 500);
    f.state.patch(access, 8, &[0x22; 4]).unwrap();
    f.state.close_op(h2).unwrap();
    f.commit_now().unwrap();
    f.checkpoint(None).unwrap();

    let home = f.read(500);
    assert_eq!(&home[..4], &[0x11; 4]);
    assert_eq!(&home[8..12], &[0x22; 4]);
    assert_eq!(home[100], 0xAA);
}

#[test]
fn capture_after_checkpoint_seeds_from_device_again() {
    let mut f = journaled_fixture(16, 1, 1);
    let h1 = f.open();
    let access = f.write_access(h1, 501);
    f.state.patch(access, 0, &[0x11; 4]).unwrap();
    f.state.close_op(h1).unwrap();
    f.commit_now().unwrap();
    f.checkpoint(None).unwrap();

    let mut doctored = f.read(501);
    doctored[100] = 0x77;
    f.blocks.insert(501, doctored);

    let h2 = f.open();
    let access = f.write_access(h2, 501);
    let seeded = running_bytes(&f, 501);
    assert_eq!(seeded[100], 0x77);
    assert_eq!(&seeded[..4], &[0x11; 4]);
    f.state.patch(access, 8, &[0x22; 4]).unwrap();
    f.state.close_op(h2).unwrap();
    f.commit_now().unwrap();
    f.checkpoint(None).unwrap();

    let home = f.read(501);
    assert_eq!(&home[8..12], &[0x22; 4]);
    assert_eq!(home[100], 0x77);
}

#[test]
fn upgrade_stamps_csum_v3_on_featureless_journal() {
    let mut f = journaled_fixture(16, 1, 1);
    assert_eq!(f.read_super().word(S_FEATURE_INCOMPAT), 0);
    let needs = JournalUpgradeNeeds {
        fs_has_metadata_csum: true,
        fs_is_64bit: false,
    };
    let new = upgrade_journal_on_mount(&f.read_super(), needs).unwrap();
    f.write_super(&new);

    let sb = f.read_super();
    assert_eq!(sb.word(S_FEATURE_INCOMPAT), INCOMPAT_CSUM_V3);
    assert_eq!(sb.bytes[S_CHECKSUM_TYPE], JBD2_CRC32C_CHKSUM);
    assert_eq!(sb.word(S_CHECKSUM), sb.checksum());
    let geo = loaded(&sb, 16);
    assert_eq!(geo.tag_layout(), layout_of(INCOMPAT_CSUM_V3));
    assert!(geo.csum_seed().is_some());
}

#[test]
fn upgrade_adds_64bit_iff_fs_is_64bit() {
    let f = journaled_fixture(16, 1, 1);
    let needs = JournalUpgradeNeeds {
        fs_has_metadata_csum: true,
        fs_is_64bit: true,
    };
    let sb = upgrade_journal_on_mount(&f.read_super(), needs).unwrap();
    assert_eq!(
        sb.word(S_FEATURE_INCOMPAT),
        INCOMPAT_CSUM_V3 | INCOMPAT_64BIT
    );
    assert_eq!(sb.word(S_CHECKSUM), sb.checksum());
    let geo = loaded(&sb, 16);
    assert_eq!(
        geo.tag_layout(),
        layout_of(INCOMPAT_CSUM_V3 | INCOMPAT_64BIT)
    );
}

#[test]
fn upgrade_honors_journal_per_policy_table() {
    let needs = |fs_has_metadata_csum, fs_is_64bit| JournalUpgradeNeeds {
        fs_has_metadata_csum,
        fs_is_64bit,
    };
    let raw = journal_super(16, 1, 1, 0);
    assert!(upgrade_journal_on_mount(&raw, needs(false, true)).is_none());

    let mut raw = journal_super(16, 1, 1, 0);
    raw.set_word(S_FEATURE_INCOMPAT, INCOMPAT_64BIT);
    assert!(upgrade_journal_on_mount(&raw, needs(true, false)).is_none());

    let mut raw = journal_super(16, 1, 1, 0);
    raw.set_word(S_FEATURE_INCOMPAT, INCOMPAT_CSUM_V3);
    raw.bytes[S_CHECKSUM_TYPE] = JBD2_CRC32C_CHKSUM;
    let csum = raw.checksum();
    raw.set_word(S_CHECKSUM, csum);
    assert!(upgrade_journal_on_mount(&raw, needs(false, false)).is_none());

    let raw = journal_super(16, 1, 1, 3);
    assert!(upgrade_journal_on_mount(&raw, needs(true, false)).is_none());

    let mut raw = journal_super(16, 1, 1, 0);
    raw.set_word(H_BLOCKTYPE, BLOCKTYPE_SUPERBLOCK_V1);
    assert!(upgrade_journal_on_mount(&raw, needs(true, false)).is_none());
}

#[test]
fn interrupted_replay_is_repeated_harmlessly() {
    let mut f = journaled_fixture(24, 1, 1);
    f.commit(make_txn(1, &[(500, marked(b"one")), (501, marked(b"two"))]))
        .unwrap();
    f.commit(make_txn(2, &[(501, marked(b"newer"))])).unwrap();
    let none = RevokeTable::new();
    let behind = f.apply(1, Tid::new(1), &none).unwrap();
    f.apply(behind, Tid::new(2), &none).unwrap();
    f.apply(1, Tid::new(1), &none).unwrap();
    f.apply(behind, Tid::new(2), &none).unwrap();
    assert_eq!(f.read(500), marked(b"one"));
    assert_eq!(f.read(501), marked(b"newer"));
}

#[test]
fn revoke_table_keeps_the_newest() {
    let mut table = RevokeTable::new();
    table.record(7, Tid::new(3));
    table.record_all(&[7, 9], Tid::new(5));
    assert!(table.suppresses(7, Tid::new(5)));
    assert!(!table.suppresses(7, Tid::new(6)));
    assert!(!table.suppresses(8, Tid::new(1)));
    let copy = table.snapshot();
    table.retire_through(Tid::new(5));
    assert!(!table.suppresses(9, Tid::new(5)));
    assert!(copy.suppresses(9, Tid::new(5)));
}

#[test]
fn ordered_data_enomem_aborts_the_transaction() {
    let mut f = journaled_fixture(64, 1, 1);
    let handle = f.state.begin_op().unwrap().unwrap();
    let access = f.write_access(handle, FILE_INODE_TABLE_BID);
    f.state.patch(access, 0, &[0x5a; 16]).unwrap();
    f.state.abort();
    f.state.close_op(handle).unwrap();

    assert!(f.state.is_aborted());
    assert!(f.state.running.as_ref().unwrap().ordered.is_empty());
    assert_eq!(f.state.poll_commit_action(), None);
    let target = f.state.sync_target().unwrap().unwrap();
    match f.state.poll_log_commit(target) {
        Some(Err(e)) => assert_eq!(e.error(), Errno::EIO),
        other => panic!("the wait must fail: {:?}", other),
    }
    assert_eq!(f.state.begin_op().unwrap_err().error(), Errno::EROFS);
}

const FILE_INODE_TABLE_BID: u64 = 4;

fn empty_file() -> Inode {
    let desc = InodeDesc::new(
        InodeType::File,
        FilePerm::from_bits_truncate(0o644),
        0,
        0,
        1,
        0,
        Duration::zero(),
        InodeSeed::ExtentRoot,
    );
    Inode::new(11, desc, None)
}

fn journal_inode(f: &mut Fixture, inode: &mut Inode) {
    let handle = f.open();
    let extents = ExtentSnapshot {
        root: inode.desc.block,
        sector_count: 0,
        dirty: false,
    };
    let raw = inode
        .write_back(&extents, None, None, INODE_SIZE, handle.tid())
        .unwrap();
    let access = f.write_access(handle, FILE_INODE_TABLE_BID);
    f.state
        .patch(access, 10 * INODE_SIZE, &raw.as_bytes())
        .unwrap();
    f.state.close_op(handle).unwrap();
}

#[test]
fn setattr_journals_inode_desc_and_survives_commit() {
    let mut f = journaled_fixture(64, 1, 1);
    let mut inode = empty_file();
    let now = Duration::new(9, 0);
    inode.set_mode(0o600, now);
    journal_inode(&mut f, &mut inode);
    let running = f.state.running.as_ref().unwrap();
    assert_eq!(running.nr_metadata_blocks(), 1);
    assert_eq!(running.captures.keys(), vec![FILE_INODE_TABLE_BID]);

    inode.set_owner(4242, now);
    journal_inode(&mut f, &mut inode);
    inode.set_atime(Duration::new(111, 0));
    journal_inode(&mut f, &mut inode);
    inode.set_mtime(Duration::new(222, 0));
    journal_inode(&mut f, &mut inode);
    let running = f.state.running.as_ref().unwrap();
    assert_eq!(running.nr_metadata_blocks(), 1);
    assert!(inode.sync_tid.is_some());
    assert!(inode.datasync_tid.is_none());

    f.commit_now().unwrap();
    let image = f.state.newest_bytes(FILE_INODE_TABLE_BID).unwrap();
    assert_eq!(f.state.uncheckpointed.keys(), vec![FILE_INODE_TABLE_BID]);
    let mut bytes = [0; INODE_SIZE];
    bytes.copy_from_slice(&image[10 * INODE_SIZE..11 * INODE_SIZE]);
    let stored = match InodeDesc::try_from(&RawInode::from_bytes(&bytes)) {
        Ok(desc) => desc,
        Err(e) => panic!("the inode was refused: {:?}", e),
    };
    assert_eq!(stored.perm.bits(), 0o600);
    assert_eq!(stored.uid, 4242);
    assert_eq!(stored.atime, Duration::new(111, 0));
    assert_eq!(stored.mtime, Duration::new(222, 0));
}
