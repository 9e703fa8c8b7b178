use std::collections::{BTreeMap, BTreeSet};

use ext4::error::{Errno, Error};
use ext4::inode::desc::{Dtime, FilePerm, InodeDesc, InodeSeed, InodeType};
use ext4::inode::falloc::{FallocMode, FallocPlan, PunchedChunk};
use ext4::inode::node::{ExtentSnapshot, Inode, InodePayload, SyncScope};
use ext4::inode::ops::{CacheResize, FileOp, Reserve};
use ext4::inode::raw::{RawInode, INODE_SIZE};
use ext4::inode::resize::{FreeEnd, FreedChunk, ResizePlan, ShrinkEstimate};
use ext4::inode::symlink::{target_text, LinkPlan, LinkRead};
use ext4::inode::time::Duration;
use ext4::inode::write::{FillStep, HoleFill, WritePlan};
use ext4::journal::tid::Tid;
use ext4::journal::transaction::{OrderedData, Transaction};

const BLOCK: u64 = 4096;
const MAX_FILE_SIZE: u64 = 1 << 40;

type Page = [u8; 4096];

/// A file on a small disk: blocks that are handed out lowest first, a page
/// cache, and transactions that have room for a number of blocks.
struct File {
    inode: Inode,
    extents: BTreeMap<u32, (u64, bool)>,
    free: BTreeSet<u64>,
    disk: BTreeMap<u64, Page>,
    pages: BTreeMap<u64, Page>,
    dirty: BTreeSet<u64>,
    capacity: u64,
    max_credits: Option<usize>,
    room: usize,
    tid: Tid,
    in_op: bool,
    listed: bool,
    was_listed: bool,
    restarts: usize,
    txn: Transaction,
    freed: bool,
    /// The extents changed, and the inode was not written back since.
    unsaved: bool,
    source: Vec<u8>,
    source_at: u64,
}

enum Event {
    Done,
    Filled(HoleFill),
    Freed(FreedChunk),
    Punched(PunchedChunk),
}

fn new_inode(type_: InodeType) -> Inode {
    let desc = InodeDesc::new(
        type_,
        FilePerm::from_bits_truncate(0o644),
        0,
        0,
        1,
        0,
        Duration::zero(),
        InodeSeed::ExtentRoot,
    );
    Inode::new(11, desc, None)
}

fn file(max_credits: Option<usize>) -> File {
    File {
        inode: new_inode(InodeType::File),
        extents: BTreeMap::new(),
        free: (1000..3000).collect(),
        disk: BTreeMap::new(),
        pages: BTreeMap::new(),
        dirty: BTreeSet::new(),
        capacity: 0,
        max_credits,
        room: usize::MAX,
        tid: Tid::new(0),
        in_op: false,
        listed: false,
        was_listed: false,
        restarts: 0,
        txn: Transaction::new(Tid::new(1)),
        freed: false,
        unsaved: false,
        source: Vec::new(),
        source_at: 0,
    }
}

fn now() -> Duration {
    Duration::new(77, 0)
}

impl File {
    fn size(&self) -> u64 {
        self.inode.desc.size()
    }

    fn sectors(&self) -> u64 {
        self.extents.len() as u64 * 8
    }

    fn snapshot(&self) -> ExtentSnapshot {
        ExtentSnapshot {
            root: self.inode.desc.block,
            sector_count: self.sectors(),
            dirty: self.unsaved,
        }
    }

    fn page(&self, n: u64) -> Page {
        if let Some(page) = self.pages.get(&n) {
            return *page;
        }
        match self.extents.get(&(n as u32)) {
            Some((block, true)) => *self.disk.get(block).unwrap_or(&[0; 4096]),
            _ => [0; 4096],
        }
    }

    fn store(&mut self, start: u64, bytes: &[u8]) {
        for (i, byte) in bytes.iter().enumerate() {
            let at = start + i as u64;
            let mut page = self.page(at / BLOCK);
            page[(at % BLOCK) as usize] = *byte;
            self.pages.insert(at / BLOCK, page);
            self.dirty.insert(at / BLOCK);
        }
    }

    fn flush(&mut self, start: u64, end: u64) -> Result<(), Error> {
        let touched: Vec<u64> = self.dirty.iter().copied().collect();
        for n in touched {
            if n * BLOCK < end && (n + 1) * BLOCK > start {
                let block = match self.extents.get(&(n as u32)) {
                    Some((block, _)) => *block,
                    None => return Err(Error::Outside(Errno::EIO)),
                };
                let page = self.page(n);
                self.disk.insert(block, page);
                self.dirty.remove(&n);
            }
        }
        Ok(())
    }

    fn drop_pages(&mut self, from: u64, to: u64) {
        self.pages.retain(|n, _| *n < from || *n >= to);
        self.dirty.retain(|n| *n < from || *n >= to);
    }

    fn resize_cache(&mut self, resize: CacheResize) {
        let mapped = match resize.probe {
            Some(block) => self.extents.contains_key(&block),
            None => false,
        };
        let (new, old) = resize.sizes(mapped);
        let edge = if new < old { new } else { old };
        if edge % BLOCK != 0 {
            let fill = vec![0u8; (BLOCK - edge % BLOCK) as usize];
            self.store(edge, &fill);
        }
        if new < old {
            self.drop_pages(new.div_ceil(BLOCK), u64::MAX);
        }
        self.capacity = new.div_ceil(BLOCK) * BLOCK;
    }

    fn fill_holes(&mut self, first: u32, stop: u32, bounded: bool) -> Result<HoleFill, Error> {
        for n in first..stop {
            if self.extents.contains_key(&n) {
                continue;
            }
            if bounded && self.room == 0 {
                return Ok(HoleFill::Stopped {
                    reached: n,
                    need: 1,
                });
            }
            let block = match self.free.pop_first() {
                Some(block) => block,
                None => return Err(Error::Outside(Errno::ENOSPC)),
            };
            self.room = self.room.saturating_sub(1);
            self.extents.insert(n, (block, false));
            self.unsaved = true;
        }
        Ok(HoleFill::Filled)
    }

    fn free_blocks(&mut self, first: u32, stop: u32, bounded: bool) -> bool {
        let doomed: Vec<u32> = self.extents.range(first..stop).map(|e| *e.0).collect();
        for n in doomed.into_iter().rev() {
            if bounded && self.room == 0 {
                return false;
            }
            if let Some((block, _)) = self.extents.remove(&n) {
                self.free.insert(block);
                self.unsaved = true;
                self.room = self.room.saturating_sub(1);
            }
        }
        true
    }

    fn rejoin(&mut self) {
        assert!(!self.unsaved, "a transaction was left without the inode");
        self.restarts += 1;
        self.tid = self.tid.next();
        self.room = self.max_credits.unwrap_or(usize::MAX);
    }

    fn perform(&mut self, op: FileOp) -> Result<Event, Error> {
        let mut event = Event::Done;
        match op {
            FileOp::BeginOp(_) => {
                assert!(!self.in_op);
                self.in_op = true;
                self.tid = self.tid.next();
                self.room = self.max_credits.unwrap_or(usize::MAX);
            }
            FileOp::EnsureCredits(_) => {
                if self.room == 0 {
                    self.rejoin();
                }
            }
            FileOp::Restart { credits } => {
                assert!(credits > 0);
                self.rejoin();
            }
            FileOp::FlushPages { start, end } => self.flush(start, end)?,
            FileOp::InvalidatePages { start, end } => {
                self.flush(start, end)?;
                self.drop_pages(start / BLOCK, end / BLOCK);
            }
            FileOp::ZeroIfMapped { block, start, end } => {
                assert_eq!(start / BLOCK, block as u64);
                assert_eq!((end - 1) / BLOCK, block as u64);
                if self.extents.contains_key(&block) {
                    self.store(start, &vec![0; (end - start) as usize]);
                }
            }
            FileOp::ResizeCache(resize) => self.resize_cache(resize),
            FileOp::WritePages { start, end } => {
                assert!(end <= self.capacity);
                let from = (start - self.source_at) as usize;
                let bytes = self.source[from..from + (end - start) as usize].to_vec();
                self.store(start, &bytes);
            }
            FileOp::Allocate { first, stop } => {
                self.fill_holes(first, stop, false)?;
            }
            FileOp::AllocateChunk { first, stop } => {
                event = Event::Filled(self.fill_holes(first, stop, true)?);
            }
            FileOp::MarkWritten { first, stop } => {
                self.unsaved = true;
                for n in first..stop {
                    assert!(self.pages.contains_key(&(n as u64)), "no data for {n}");
                    if let Some(extent) = self.extents.get_mut(&n) {
                        extent.1 = true;
                    }
                }
            }
            FileOp::Truncate { size } => {
                self.free_blocks(size.div_ceil(BLOCK) as u32, u32::MAX, false);
            }
            FileOp::TruncateChunk { size } => {
                assert!(self.listed);
                self.free_blocks(size.div_ceil(BLOCK) as u32, u32::MAX, true);
                let reached = match self.extents.last_key_value() {
                    Some((n, _)) => *n + 1,
                    None => 0,
                };
                event = Event::Freed(FreedChunk {
                    reached,
                    next_bound: 1,
                });
            }
            FileOp::PunchRange { first, stop } => {
                self.free_blocks(first, stop, false);
            }
            FileOp::PunchChunk { first, stop } => {
                let done = self.free_blocks(first, stop, true);
                event = Event::Punched(PunchedChunk {
                    more: !done,
                    next_bound: 1,
                });
            }
            FileOp::OrphanAdd | FileOp::OrphanAddIfAbsent => {
                self.listed = true;
                self.was_listed = true;
            }
            FileOp::OrphanDel => self.listed = false,
            FileOp::RegisterOrdered => self.txn.register_ordered_data(OrderedData {
                ino: 11,
                len: self.inode.desc.size(),
            }),
            FileOp::FreeInode => self.freed = true,
            _ => {}
        }
        let tid = if self.max_credits.is_some() && self.in_op {
            Some(self.tid)
        } else {
            None
        };
        let extents = self.snapshot();
        self.inode.apply(op, now(), tid, &extents);
        if op == FileOp::WriteBack {
            self.unsaved = false;
        }
        Ok(event)
    }

    fn perform_all(&mut self, ops: Vec<FileOp>) -> Result<Event, Error> {
        let mut last = Event::Done;
        for op in ops {
            last = self.perform(op)?;
        }
        Ok(last)
    }

    fn undo(&mut self, ops: Vec<FileOp>) {
        for op in ops {
            let _ = self.perform(op);
        }
    }

    fn write(&mut self, offset: u64, data: &[u8]) -> Result<u64, Error> {
        self.source = data.to_vec();
        self.source_at = offset;
        let len = data.len() as u64;
        let plan = self
            .inode
            .write_at(offset, len, self.max_credits, MAX_FILE_SIZE)?;
        let result = match plan {
            WritePlan::Nothing => return Ok(0),
            WritePlan::Refused(e) => {
                self.perform(FileOp::BeginOp(Reserve::Write))?;
                Err(e)
            }
            WritePlan::Single(plan) => {
                self.perform(FileOp::BeginOp(Reserve::Write))?;
                let failed = match plan.fault {
                    Some(e) => Some(e),
                    None => self.perform_all(plan.body).err(),
                };
                match failed {
                    Some(e) => {
                        self.undo(plan.rollback);
                        Err(e)
                    }
                    None => self.perform_all(plan.after).map(|_| len),
                }
            }
            WritePlan::Append(mut append) => {
                self.perform(FileOp::BeginOp(Reserve::Write))?;
                let mut ops = append.request();
                loop {
                    let fill = match self.perform_all(ops) {
                        Ok(Event::Filled(fill)) => fill,
                        Ok(_) => break Ok(len),
                        Err(e) => {
                            let (undo, result) = append.chunk_failed(&self.inode, e);
                            self.undo(undo);
                            break result;
                        }
                    };
                    match append.on_fill(&self.inode, fill) {
                        FillStep::Retry(next) => ops = next,
                        FillStep::Over(result) => break result,
                        FillStep::Chunk {
                            reached,
                            fault,
                            body,
                        } => {
                            let failed = match fault {
                                Some(e) => Some(e),
                                None => self.perform_all(body).err(),
                            };
                            if let Some(e) = failed {
                                let (undo, result) = append.chunk_failed(&self.inode, e);
                                self.undo(undo);
                                break result;
                            }
                            ops = append.chunk_done(reached);
                        }
                    }
                }
            }
        };
        self.in_op = false;
        result
    }

    fn free_loop(
        &mut self,
        ops: Vec<FileOp>,
        free: ext4::inode::resize::FreeLoop,
    ) -> Result<(), Error> {
        let mut ops = ops;
        loop {
            match self.perform_all(ops)? {
                Event::Freed(chunk) => ops = free.on_chunk(chunk),
                _ => break,
            }
        }
        self.in_op = false;
        Ok(())
    }

    fn resize_with(&mut self, size: u64, estimate: ShrinkEstimate) -> Result<(), Error> {
        let journaled = self.max_credits.is_some();
        let wanted = self.inode.needs_shrink_estimate(size, journaled);
        let plan = self.inode.resize(
            size,
            journaled,
            MAX_FILE_SIZE,
            self.max_credits.unwrap_or(0),
            if wanted { Some(estimate) } else { None },
        )?;
        match plan {
            ResizePlan::Whole(plan) => {
                self.perform_all(plan.ops)?;
                self.in_op = false;
                match plan.fault {
                    Some(e) => Err(e),
                    None => Ok(()),
                }
            }
            ResizePlan::Chunked(plan, free) => {
                assert_eq!(plan.fault, None);
                self.free_loop(plan.ops, free)
            }
        }
    }

    fn resize(&mut self, size: u64) -> Result<(), Error> {
        let estimate = ShrinkEstimate {
            whole_estimate: self.extents.len(),
            floor_efbig: false,
        };
        self.resize_with(size, estimate)
    }

    fn fallocate(&mut self, mode: FallocMode, offset: u64, len: u64) -> Result<(), Error> {
        let plan = self
            .inode
            .fallocate(mode, offset, len, self.max_credits, MAX_FILE_SIZE)?;
        let result = match plan {
            FallocPlan::Nothing => Ok(()),
            FallocPlan::Preallocate(ops, mut going) => {
                let mut ops = ops;
                loop {
                    match self.perform_all(ops) {
                        Err(e) => break Err(e),
                        Ok(Event::Filled(fill)) => match going.on_fill(fill) {
                            Ok(next) => ops = next,
                            Err(e) => break Err(e),
                        },
                        Ok(_) => break Ok(()),
                    }
                }
            }
            FallocPlan::Punch(plan, punch) => {
                let mut ops = plan.ops;
                loop {
                    match self.perform_all(ops)? {
                        Event::Punched(chunk) => ops = punch.on_chunk(chunk),
                        _ => break,
                    }
                }
                match plan.fault {
                    Some(e) => Err(e),
                    None => Ok(()),
                }
            }
        };
        self.in_op = false;
        result
    }

    fn read(&self, offset: u64, len: u64) -> Vec<u8> {
        let len = self.inode.read_at(offset, len).unwrap();
        (offset..offset + len)
            .map(|at| self.page(at / BLOCK)[(at % BLOCK) as usize])
            .collect()
    }

    /// Writes the target of a link.
    fn write_link(&mut self, target: &str) {
        self.source = target.as_bytes().to_vec();
        self.source_at = 0;
        match self.inode.write_link(target).unwrap() {
            LinkPlan::Inline(ops) => {
                self.perform_all(ops).unwrap();
                self.inode.keep_link_inline(target, now());
            }
            LinkPlan::Block { ops, .. } => {
                self.inode.switch_to_block();
                self.perform_all(ops).unwrap();
            }
        }
    }

    fn read_link(&self) -> String {
        match self.inode.read_link().unwrap() {
            LinkRead::Text(text) => text,
            LinkRead::Block { len } => target_text(self.read_pages(len)).unwrap(),
        }
    }

    fn read_pages(&self, len: u64) -> Vec<u8> {
        (0..len)
            .map(|at| self.page(at / BLOCK)[(at % BLOCK) as usize])
            .collect()
    }

    /// Writes everything back, and reads the file again from the disk.
    fn reread(mut self) -> File {
        self.flush(0, self.size()).unwrap();
        let mut extents = self.snapshot();
        extents.dirty = true;
        let raw = self
            .inode
            .write_back(&extents, None, None, INODE_SIZE, None)
            .unwrap();
        let mut again = file(None);
        again.inode = match Inode::from_raw_live(11, &RawInode::from_bytes(&raw.as_bytes()), None) {
            Ok(inode) => inode,
            Err(e) => panic!("the inode was refused: {:?}", e),
        };
        again.extents = self.extents;
        again.disk = self.disk;
        again
    }

    fn state(&self, block: u32) -> Option<bool> {
        self.extents.get(&block).map(|e| e.1)
    }
}

fn zeros(n: u64) -> Vec<u8> {
    vec![0; n as usize]
}

fn filled(byte: u8, n: u64) -> Vec<u8> {
    vec![byte; n as usize]
}

fn nonzero_pattern(n: u64) -> Vec<u8> {
    (0..n).map(|k| (k % 250 + 1) as u8).collect()
}

const WRITTEN: Option<bool> = Some(true);
const UNWRITTEN: Option<bool> = Some(false);
const HOLE: Option<bool> = None;

#[test]
fn write_fresh_file_all_holes_round_trip() {
    let mut f = file(None);
    let content = b"hello ext4 buffered write path, this is task 3!";
    assert_eq!(f.write(0, content), Ok(content.len() as u64));
    assert_eq!(f.size(), content.len() as u64);
    assert_eq!(f.read(0, content.len() as u64), content);
    assert_eq!(f.sectors(), 8);
    assert_eq!(f.state(0), WRITTEN);
    assert_eq!(f.inode.desc.mtime, now());
    assert_eq!(f.inode.desc.ctime, now());
}

#[test]
fn append_past_eof_extends_file() {
    let mut f = file(None);
    f.write(0, &filled(0xAA, BLOCK)).unwrap();
    assert_eq!(f.sectors(), 8);
    let appended = filled(0xBB, BLOCK);
    f.write(BLOCK, &appended).unwrap();
    assert_eq!(f.size(), 2 * BLOCK);
    assert_eq!(f.sectors(), 16);
    assert_eq!(f.read(BLOCK, BLOCK), appended);
}

#[test]
fn sparse_write_leaves_zero_gap() {
    let mut f = file(None);
    let payload = filled(0xCD, BLOCK);
    f.write(5 * BLOCK, &payload).unwrap();
    assert_eq!(f.size(), 6 * BLOCK);
    assert_eq!(f.sectors(), 8);
    assert_eq!(f.read(0, BLOCK), zeros(BLOCK));
    assert_eq!(f.read(5 * BLOCK, BLOCK), payload);
}

#[test]
fn overwrite_existing_data_no_new_allocation() {
    let mut f = file(None);
    f.write(0, &filled(0x11, BLOCK)).unwrap();
    let free = f.free.len();
    let new_data = filled(0x22, BLOCK);
    f.write(0, &new_data).unwrap();
    assert_eq!(f.sectors(), 8);
    assert_eq!(f.free.len(), free);
    assert_eq!(f.read(0, BLOCK), new_data);
}

#[test]
fn remount_persistence_round_trip() {
    let mut f = file(None);
    let content = b"survives a remount of the same disk image";
    let len = content.len() as u64;
    f.write(0, content).unwrap();
    let again = f.reread();
    assert_eq!(again.size(), len);
    assert_eq!(again.inode.desc.sector_count(), 8);
    assert_eq!(again.read(0, len), content);
}

#[test]
fn shrink_frees_blocks_and_zeroes_partial_tail() {
    let mut f = file(None);
    f.write(0, &filled(0xEE, 3 * BLOCK)).unwrap();
    assert_eq!(f.sectors(), 24);
    let free = f.free.len();
    let new_size = BLOCK + 100;
    f.resize(new_size).unwrap();
    assert_eq!(f.size(), new_size);
    assert_eq!(f.sectors(), 16);
    assert_eq!(f.free.len(), free + 1);
    assert_eq!(f.state(1), WRITTEN);
    assert_eq!(f.state(2), HOLE);
    assert_eq!(f.read(BLOCK, 100), filled(0xEE, 100));
    f.resize(2 * BLOCK).unwrap();
    assert_eq!(
        f.read(new_size, 2 * BLOCK - new_size),
        zeros(2 * BLOCK - new_size)
    );
    assert_eq!(f.read(BLOCK, 100), filled(0xEE, 100));
}

#[test]
fn shrink_to_zero_frees_everything() {
    let mut f = file(None);
    for k in 0..5u64 {
        f.write(k * 2 * BLOCK, &filled(0x40 + k as u8, BLOCK)).unwrap();
    }
    let free = f.free.len();
    f.resize(0).unwrap();
    assert_eq!(f.size(), 0);
    assert_eq!(f.sectors(), 0);
    assert_eq!(f.free.len(), free + 5);
    assert_eq!(f.state(0), HOLE);
}

#[test]
fn expand_is_sparse_and_reads_zeros() {
    let mut f = file(None);
    let payload = b"sparse expand";
    f.write(0, payload).unwrap();
    let free = f.free.len();
    f.resize(4 * BLOCK).unwrap();
    assert_eq!(f.size(), 4 * BLOCK);
    assert_eq!(f.sectors(), 8);
    assert_eq!(f.free.len(), free);
    let len = payload.len() as u64;
    assert_eq!(f.read(0, len), payload);
    assert_eq!(f.read(len, 4 * BLOCK - len), zeros(4 * BLOCK - len));
}

#[test]
fn write_into_unwritten_extent_converts_and_reads_back() {
    let mut f = file(None);
    f.fallocate(FallocMode::Allocate, 0, 4 * BLOCK).unwrap();
    let free = f.free.len();
    assert_eq!(f.read(0, 4 * BLOCK), zeros(4 * BLOCK));
    let payload = filled(0x77, BLOCK);
    f.write(BLOCK, &payload).unwrap();
    assert_eq!(f.read(BLOCK, BLOCK), payload);
    assert_eq!(f.read(0, BLOCK), zeros(BLOCK));
    assert_eq!(f.read(2 * BLOCK, 2 * BLOCK), zeros(2 * BLOCK));
    assert_eq!(f.state(0), UNWRITTEN);
    assert_eq!(f.state(1), WRITTEN);
    assert_eq!(f.state(2), UNWRITTEN);
    assert_eq!(f.sectors(), 32);
    assert_eq!(f.free.len(), free);
}

#[test]
fn resize_on_directory_is_eisdir() {
    let dir = new_inode(InodeType::Dir);
    let err = dir.resize(0, false, MAX_FILE_SIZE, 0, None).err();
    assert_eq!(err, Some(Error::IsDirectory));
    assert_eq!(Error::IsDirectory.error(), Errno::EISDIR);
    assert!(matches!(
        dir.write_at(0, 1, None, MAX_FILE_SIZE),
        Err(Error::IsDirectory)
    ));
}

#[test]
fn journaled_write_and_shrink_register_ordered_data() {
    let mut f = file(Some(64));
    assert_eq!(f.txn.nr_ordered_data(), 0);
    f.write(0, &filled(0x5a, 2 * BLOCK)).unwrap();
    assert_eq!(f.txn.nr_ordered_data(), 1);
    assert_eq!(f.txn.ordered[0].len, 2 * BLOCK);
    f.write(2 * BLOCK, &filled(0xa5, BLOCK)).unwrap();
    assert_eq!(f.txn.nr_ordered_data(), 1);
    assert_eq!(f.txn.ordered[0].len, 3 * BLOCK);
    f.write(0, &filled(0xa5, BLOCK)).unwrap();
    assert_eq!(f.txn.nr_ordered_data(), 1);
    f.resize(BLOCK / 2).unwrap();
    assert_eq!(f.txn.nr_ordered_data(), 1);
    assert_eq!(f.txn.ordered[0].len, BLOCK / 2);
}

#[test]
fn slow_symlink_round_trip() {
    let mut f = file(None);
    f.inode = new_inode(InodeType::SymLink);
    let target = "x".repeat(200);
    f.write_link(&target);

    assert_eq!(f.read_link(), target);
    assert_eq!(f.size(), 200);
    assert!(!f.inode.is_fast_symlink());
    assert!(matches!(f.inode.payload, InodePayload::DataBacked { .. }));
    assert!(f.inode.desc.is_extent_based());
    assert_eq!(f.sectors(), 8);
    assert_eq!(f.inode.sector_count(&f.snapshot()), 8);
    assert_eq!(f.state(0), WRITTEN);

    let reread = f.reread();
    assert!(!reread.inode.is_fast_symlink());
    assert_eq!(reread.inode.desc.sector_count(), 8);
    assert_eq!(reread.read_link(), target);
}

#[test]
fn short_target_after_a_long_one_has_no_sectors() {
    let mut f = file(None);
    f.inode = new_inode(InodeType::SymLink);
    f.write_link(&"y".repeat(300));
    let free = f.free.len();
    f.perform(FileOp::WriteBack).unwrap();
    assert_eq!(f.inode.desc.sector_count(), 8);
    f.write_link("short");
    assert_eq!(f.read_link(), "short");
    assert_eq!(f.sectors(), 0);
    assert_eq!(f.free.len(), free + 1);
    assert!(f.inode.is_fast_symlink());
    assert_eq!(f.inode.desc.sector_count(), 0);
    assert_eq!(f.inode.sector_count(&f.snapshot()), 0);
}

#[test]
fn shrunk_bytes_do_not_come_back() {
    for max_credits in [None, Some(64), Some(4)] {
        let mut f = file(max_credits);
        let payload = nonzero_pattern(6 * BLOCK);
        f.write(0, &payload).unwrap();
        f.resize(BLOCK + 10).unwrap();
        assert_eq!(f.state(1), WRITTEN);
        assert_eq!(f.state(2), HOLE);
        let free = f.free.len();
        f.resize(6 * BLOCK).unwrap();
        assert_eq!(f.free.len(), free);
        assert_eq!(f.read(0, BLOCK + 10), payload[..BLOCK as usize + 10]);
        let rest = 5 * BLOCK - 10;
        assert_eq!(f.read(BLOCK + 10, rest), zeros(rest));
    }
}

#[test]
fn clean_write_back_stamps_nothing() {
    let mut f = file(Some(64));
    f.write(0, &filled(1, BLOCK)).unwrap();
    let wrote = f.inode.sync_tid;
    assert_eq!(wrote, Some(f.tid));
    for op in f.inode.sync_data_and_meta(true) {
        f.perform(op).unwrap();
    }
    f.in_op = false;
    assert_ne!(Some(f.tid), wrote);
    assert_eq!(f.inode.sync_tid, wrote);
    assert_eq!(f.inode.sync_wait_tid(SyncScope::Full, false, None), wrote);

    f.unsaved = true;
    for op in f.inode.sync_metadata() {
        f.perform(op).unwrap();
    }
    assert_eq!(f.inode.sync_tid, Some(f.tid));
    let extents = f.snapshot();
    let later = Some(f.tid.next());
    assert!(f.inode.write_back(&extents, None, None, INODE_SIZE, later).is_none());
    assert_eq!(f.inode.sync_tid, Some(f.tid));
}

#[test]
fn deleted_inode_is_reclaimed_once() {
    for (max_credits, blocks) in [(None, 5), (None, 0), (Some(64), 5), (Some(2), 5)] {
        let mut f = file(max_credits);
        let free = f.free.len();
        f.write(0, &filled(3, blocks * BLOCK)).unwrap();
        f.inode.desc.link_count = 0;
        let journaled = max_credits.is_some();
        let sectors = f.sectors();
        let (ops, left) = f
            .inode
            .try_reclaim_deleted_inode(true, journaled, sectors)
            .unwrap();
        f.free_loop(ops, left).unwrap();
        assert!(f.freed);
        assert!(f.was_listed && !f.listed);
        assert_eq!(f.size(), 0);
        assert_eq!(f.inode.desc.dtime, Dtime::Time(now()));
        assert_eq!(f.sectors(), 0);
        assert_eq!(f.free.len(), free);
        let again = f.inode.try_reclaim_deleted_inode(!f.freed, journaled, 0);
        assert!(again.is_none());
    }
}

#[test]
fn append_spanning_many_groups_forces_journal_restart() {
    let mut f = file(Some(12));
    let n = 120;
    let payload: Vec<u8> = (0..n * BLOCK).map(|k| (k * 31 + 7) as u8).collect();
    assert_eq!(f.write(0, &payload), Ok(payload.len() as u64));
    assert!(f.restarts >= 1);
    assert_eq!(f.size(), payload.len() as u64);
    assert_eq!(f.read(0, n * BLOCK), payload);
    for i in 0..n as u32 {
        assert_eq!(f.state(i), WRITTEN, "block {i}");
    }
    assert_eq!(f.sectors(), n * 8);
    assert_eq!(f.inode.sync_tid, Some(f.tid));
    assert_eq!(f.inode.datasync_tid, Some(f.tid));
}

#[test]
fn truncate_spans_multiple_transactions_and_restarts() {
    let mut f = file(Some(12));
    let payload: Vec<u8> = (0..120 * BLOCK).map(|k| (k * 31 + 7) as u8).collect();
    f.write(0, &payload).unwrap();
    let restarts = f.restarts;
    f.resize(5 * BLOCK).unwrap();
    assert!(f.restarts > restarts);
    assert!(f.was_listed);
    assert!(!f.listed);
    assert_eq!(f.size(), 5 * BLOCK);
    assert_eq!(f.read(0, 5 * BLOCK), payload[..5 * BLOCK as usize]);
    for i in 0..5 {
        assert_eq!(f.state(i), WRITTEN);
    }
    assert_eq!(f.state(5), HOLE);
    assert_eq!(f.sectors(), 40);
    assert!(f.inode.desc.dtime_is_live());
    assert_eq!(f.inode.datasync_tid, Some(f.tid));
}

#[test]
fn unsplittable_shrink_changes_nothing() {
    let mut f = file(Some(4));
    f.write(0, &filled(1, 8 * BLOCK)).unwrap();
    let before = f.extents.clone();
    let estimate = ShrinkEstimate {
        whole_estimate: 8,
        floor_efbig: true,
    };
    assert_eq!(
        f.resize_with(BLOCK, estimate),
        Err(Error::ShrinkExceedsTransaction)
    );
    assert_eq!(f.size(), 8 * BLOCK);
    assert_eq!(f.extents, before);
    assert!(!f.was_listed);
}

#[test]
fn single_txn_truncate_takes_no_orphan() {
    let mut f = file(Some(64));
    let payload: Vec<u8> = (0..4 * BLOCK).map(|k| (k * 7 + 3) as u8).collect();
    f.write(0, &payload).unwrap();
    let target = BLOCK + 10;
    let restarts = f.restarts;
    f.resize(target).unwrap();
    assert!(!f.was_listed);
    assert_eq!(f.restarts, restarts);
    assert_eq!(f.size(), target);
    assert_eq!(f.read(0, target), payload[..target as usize]);
    assert_eq!(f.sectors(), 16);
}

#[test]
fn interrupted_shrink_is_finished() {
    let mut f = file(Some(3));
    f.write(0, &filled(9, 10 * BLOCK)).unwrap();
    f.listed = true;
    f.inode.set_orphan_next(Some(5));
    f.inode.set_file_size(2 * BLOCK);
    let (plan, free) = f.inode.retruncate_to(2 * BLOCK, true);
    assert_eq!(plan.fault, None);
    assert_eq!(free.end, FreeEnd::Datasync);
    f.free_loop(plan.ops, free).unwrap();
    assert!(!f.listed);
    assert!(f.inode.desc.dtime_is_live());
    assert_eq!(f.sectors(), 16);

    let (plan, _) = f.inode.retruncate_to(1 << 45, true);
    assert_eq!(plan.fault, Some(Error::BlockIndexTooWide));
    let fifo = new_inode(InodeType::NamedPipe);
    let (plan, _) = fifo.retruncate_to(0, false);
    assert_eq!(plan.fault, Some(Error::NoBlockManager));
}

#[test]
fn deleted_inode_is_reclaimed_in_chunks() {
    let mut f = file(Some(3));
    f.write(0, &filled(9, 10 * BLOCK)).unwrap();
    assert!(f.inode.try_reclaim_deleted_inode(true, true, 80).is_none());
    f.inode.set_link_count(0);
    assert!(f.inode.try_reclaim_deleted_inode(false, true, 80).is_none());
    let (ops, free) = f.inode.try_reclaim_deleted_inode(true, true, 80).unwrap();
    f.free_loop(ops, free).unwrap();
    assert!(f.freed);
    assert!(!f.listed);
    assert_eq!(f.size(), 0);
    assert_eq!(f.sectors(), 0);
    assert_eq!(f.inode.desc.dtime.to_raw(), 77);
}

#[test]
fn fallocate_allocate_reserves_unwritten_and_extends_size() {
    let mut f = file(None);
    let len = 3 * BLOCK;
    f.fallocate(FallocMode::Allocate, 0, len).unwrap();
    assert_eq!(f.size(), len);
    assert_eq!(f.sectors(), 24);
    for i in 0..3 {
        assert_eq!(f.state(i), UNWRITTEN);
    }
    assert_eq!(f.read(0, len), zeros(len));
    let payload = nonzero_pattern(BLOCK);
    f.write(BLOCK, &payload).unwrap();
    assert_eq!(f.read(BLOCK, BLOCK), payload);
    assert_eq!(f.state(0), UNWRITTEN);
    assert_eq!(f.state(1), WRITTEN);
    assert_eq!(f.state(2), UNWRITTEN);
}

#[test]
fn reservation_keeps_what_is_there() {
    for (max_credits, mode) in [
        (None, FallocMode::Allocate),
        (Some(64), FallocMode::AllocateKeepSize),
        (Some(3), FallocMode::Allocate),
    ] {
        let mut f = file(max_credits);
        f.write(BLOCK, &nonzero_pattern(BLOCK + 100)).unwrap();
        f.fallocate(FallocMode::AllocateKeepSize, 4 * BLOCK, BLOCK).unwrap();
        let size = f.size();
        let bytes = f.read(0, size);
        let places = f.extents.clone();
        f.fallocate(mode, 10, 8 * BLOCK).unwrap();
        assert_eq!(f.read(0, size), bytes);
        for i in 0..9 {
            match places.get(&i) {
                Some(extent) => assert_eq!(f.extents.get(&i), Some(extent)),
                None => assert_eq!(f.state(i), UNWRITTEN, "block {i}"),
            }
        }
        assert_eq!(f.state(9), HOLE);
        let rest = f.size() - size;
        assert_eq!(f.read(size, rest), zeros(rest));
    }
}

#[test]
fn failed_reservation_changes_no_byte() {
    let mut f = file(None);
    f.write(0, &nonzero_pattern(2 * BLOCK)).unwrap();
    f.free = (2000..2002).collect();
    let err = f.fallocate(FallocMode::Allocate, 0, 8 * BLOCK).unwrap_err();
    assert_eq!(err, Error::Outside(Errno::ENOSPC));
    assert_eq!(f.size(), 2 * BLOCK);
    assert_eq!(f.read(0, 2 * BLOCK), nonzero_pattern(2 * BLOCK));
    assert_eq!(f.state(0), WRITTEN);
    assert_eq!(f.state(2), UNWRITTEN);
}

#[test]
fn failed_chunk_leaves_the_file_as_it_was() {
    let mut f = file(Some(64));
    let content = nonzero_pattern(BLOCK + 7);
    f.write(0, &content).unwrap();
    f.free = (2000..2001).collect();
    let err = f.write(BLOCK + 7, &filled(9, 4 * BLOCK)).unwrap_err();
    assert_eq!(err, Error::Outside(Errno::ENOSPC));
    assert_eq!(f.size(), BLOCK + 7);
    assert_eq!(f.sectors(), 16);
    assert_eq!(f.read(0, BLOCK + 7), content);
    f.resize(4 * BLOCK).unwrap();
    assert_eq!(f.read(BLOCK + 7, BLOCK), zeros(BLOCK));
}

#[test]
fn fallocate_allocate_keep_size_reserves_without_growing() {
    let mut f = file(None);
    f.write(0, &nonzero_pattern(BLOCK)).unwrap();
    f.fallocate(FallocMode::AllocateKeepSize, BLOCK, 2 * BLOCK)
        .unwrap();
    assert_eq!(f.size(), BLOCK);
    assert_eq!(f.sectors(), 24);
    assert_eq!(f.state(1), UNWRITTEN);
    assert_eq!(f.state(2), UNWRITTEN);
}

#[test]
fn large_preallocation_spans_transactions() {
    let mut f = file(Some(4));
    f.fallocate(FallocMode::Allocate, 100, 10 * BLOCK).unwrap();
    assert_eq!(f.size(), 10 * BLOCK + 100);
    assert_eq!(f.sectors(), 88);
    assert!(f.restarts >= 2);
    assert_eq!(f.inode.datasync_tid, Some(f.tid));
}

#[test]
fn fallocate_punch_hole_middle_reads_zero_surrounding_intact() {
    let mut f = file(None);
    let payload = nonzero_pattern(4 * BLOCK);
    f.write(0, &payload).unwrap();
    f.fallocate(FallocMode::PunchHoleKeepSize, BLOCK, 2 * BLOCK)
        .unwrap();
    assert_eq!(f.size(), 4 * BLOCK);
    assert_eq!(f.sectors(), 16);
    assert_eq!(f.state(0), WRITTEN);
    assert_eq!(f.state(1), HOLE);
    assert_eq!(f.state(2), HOLE);
    assert_eq!(f.state(3), WRITTEN);
    assert_eq!(f.read(0, BLOCK), payload[..4096]);
    assert_eq!(f.read(BLOCK, 2 * BLOCK), zeros(2 * BLOCK));
    assert_eq!(f.read(3 * BLOCK, BLOCK), payload[3 * 4096..]);
}

#[test]
fn fallocate_punch_partial_edges_zero_not_free() {
    let mut f = file(None);
    let payload = nonzero_pattern(4 * BLOCK);
    f.write(0, &payload).unwrap();
    f.fallocate(FallocMode::PunchHoleKeepSize, BLOCK + 100, 2 * BLOCK)
        .unwrap();
    assert_eq!(f.size(), 4 * BLOCK);
    assert_eq!(f.sectors(), 24);
    assert_eq!(f.state(1), WRITTEN);
    assert_eq!(f.state(2), HOLE);
    assert_eq!(f.state(3), WRITTEN);
    assert_eq!(f.read(0, BLOCK), payload[..4096]);
    assert_eq!(f.read(BLOCK, 100), payload[4096..4196]);
    assert_eq!(f.read(BLOCK + 100, BLOCK - 100), zeros(BLOCK - 100));
    assert_eq!(f.read(2 * BLOCK, BLOCK), zeros(BLOCK));
    assert_eq!(f.read(3 * BLOCK, 100), zeros(100));
    assert_eq!(
        f.read(3 * BLOCK + 100, BLOCK - 100),
        payload[3 * 4096 + 100..]
    );
}

#[test]
fn fallocate_punch_two_adjacent_partials_both_mapped() {
    let mut f = file(None);
    let payload = nonzero_pattern(3 * BLOCK);
    f.write(0, &payload).unwrap();
    f.fallocate(FallocMode::PunchHoleKeepSize, BLOCK + 100, BLOCK)
        .unwrap();
    assert_eq!(f.size(), 3 * BLOCK);
    assert_eq!(f.sectors(), 24);
    assert_eq!(f.state(1), WRITTEN);
    assert_eq!(f.state(2), WRITTEN);
    assert_eq!(f.read(BLOCK, 100), payload[4096..4196]);
    assert_eq!(f.read(BLOCK + 100, BLOCK - 100), zeros(BLOCK - 100));
    assert_eq!(f.read(2 * BLOCK, 100), zeros(100));
    assert_eq!(
        f.read(2 * BLOCK + 100, BLOCK - 100),
        payload[2 * 4096 + 100..]
    );
}

#[test]
fn fallocate_punch_two_adjacent_partials_head_hole() {
    let mut f = file(None);
    let payload = nonzero_pattern(BLOCK);
    f.write(2 * BLOCK, &payload).unwrap();
    assert_eq!(f.size(), 3 * BLOCK);
    assert_eq!(f.state(1), HOLE);
    assert_eq!(f.state(2), WRITTEN);
    f.fallocate(FallocMode::PunchHoleKeepSize, BLOCK + 100, BLOCK)
        .unwrap();
    assert_eq!(f.read(2 * BLOCK, 100), zeros(100));
    assert_eq!(f.read(2 * BLOCK + 100, BLOCK - 100), payload[100..]);
}

#[test]
fn fallocate_punch_two_adjacent_partials_tail_hole() {
    let mut f = file(Some(64));
    let payload = nonzero_pattern(BLOCK);
    f.write(BLOCK, &payload).unwrap();
    f.write(3 * BLOCK, &payload).unwrap();
    assert_eq!(f.state(1), WRITTEN);
    assert_eq!(f.state(2), HOLE);
    f.fallocate(FallocMode::PunchHoleKeepSize, BLOCK + 100, BLOCK)
        .unwrap();
    assert_eq!(f.read(BLOCK, 100), payload[..100]);
    assert_eq!(f.read(BLOCK + 100, BLOCK - 100), zeros(BLOCK - 100));
    assert_eq!(f.flush(0, 4 * BLOCK), Ok(()));
    assert_eq!(f.state(2), HOLE);
}

#[test]
fn fallocate_allocate_failure_leaves_size_unchanged() {
    let mut f = file(None);
    f.free = (1000..1004).collect();
    let err = f
        .fallocate(FallocMode::Allocate, 0, 32 * BLOCK)
        .unwrap_err();
    assert_eq!(err.error(), Errno::ENOSPC);
    assert_eq!(f.size(), 0);
}

#[test]
fn fallocate_large_punch_spans_transactions() {
    let mut f = file(Some(12));
    let payload = nonzero_pattern(120 * BLOCK);
    f.write(0, &payload).unwrap();
    let restarts = f.restarts;
    f.fallocate(FallocMode::PunchHoleKeepSize, 10 * BLOCK, 100 * BLOCK)
        .unwrap();
    assert!(f.restarts > restarts);
    assert!(!f.was_listed);
    assert_eq!(f.size(), 120 * BLOCK);
    assert_eq!(f.read(0, 10 * BLOCK), payload[..10 * 4096]);
    assert_eq!(f.read(10 * BLOCK, 100 * BLOCK), zeros(100 * BLOCK));
    assert_eq!(f.read(110 * BLOCK, 10 * BLOCK), payload[110 * 4096..]);
    for i in 10..110 {
        assert_eq!(f.state(i), HOLE);
    }
    assert_eq!(f.state(9), WRITTEN);
    assert_eq!(f.state(110), WRITTEN);
}

#[test]
fn append_insert_exceeding_one_transaction_is_efbig_with_no_leak() {
    let f = file(Some(9));
    let append = match f.inode.write_at(0, BLOCK, Some(9), MAX_FILE_SIZE) {
        Ok(WritePlan::Append(append)) => append,
        _ => panic!("an append is expected"),
    };
    let fill = HoleFill::Stopped {
        reached: 0,
        need: 10,
    };
    assert!(matches!(
        append.on_fill(&f.inode, fill),
        FillStep::Over(Err(Error::InsertExceedsTransaction))
    ));
    assert_eq!(Error::InsertExceedsTransaction.error(), Errno::EFBIG);
    let fill = HoleFill::Stopped {
        reached: 0,
        need: 9,
    };
    let retry = match append.on_fill(&f.inode, fill) {
        FillStep::Retry(ops) => ops,
        _ => panic!("a new transaction is expected"),
    };
    assert_eq!(
        retry,
        vec![
            FileOp::Restart { credits: 9 },
            FileOp::EnsureCredits(Reserve::Write),
            FileOp::AllocateChunk { first: 0, stop: 1 },
        ]
    );
    let going = match f
        .inode
        .fallocate(FallocMode::Allocate, 0, BLOCK, Some(9), MAX_FILE_SIZE)
    {
        Ok(FallocPlan::Preallocate(_, going)) => going,
        _ => panic!("a reservation is expected"),
    };
    let mut going = going;
    let fill = HoleFill::Stopped {
        reached: 0,
        need: 10,
    };
    assert_eq!(going.on_fill(fill), Err(Error::InsertExceedsTransaction));
}

#[test]
fn append_that_runs_out_of_space_is_short() {
    let mut f = file(Some(4));
    f.free = (1000..1006).collect();
    assert_eq!(f.write(100, &filled(3, 10 * BLOCK)), Ok(4 * BLOCK - 100));
    assert_eq!(f.size(), 4 * BLOCK);
    assert_eq!(f.sectors(), 32);
    assert_eq!(f.read(100, BLOCK), filled(3, BLOCK));
    let waited = f.inode.sync_wait_tid(SyncScope::DataOnly, false, None);
    assert_eq!(waited, f.inode.sync_tid);
    assert!(waited.is_some());

    let mut f = file(Some(4));
    f.free = BTreeSet::new();
    assert_eq!(
        f.write(0, &filled(3, BLOCK)),
        Err(Error::Outside(Errno::ENOSPC))
    );
    assert_eq!(f.size(), 0);
}

#[test]
fn contiguous_append_takes_the_no_restart_fast_path() {
    let mut f = file(Some(64));
    let payload: Vec<u8> = (0..5 * BLOCK).map(|k| (k * 7 + 1) as u8).collect();
    assert_eq!(f.write(0, &payload), Ok(5 * BLOCK));
    assert_eq!(f.restarts, 0);
    assert_eq!(f.read(0, 5 * BLOCK), payload);
    for i in 0..5 {
        assert_eq!(f.state(i), WRITTEN);
    }
}

#[test]
fn multi_block_append_maps_writes_and_converts_every_block() {
    let mut f = file(Some(64));
    let first: Vec<u8> = (0..3 * BLOCK).map(|k| (k * 5 + 1) as u8).collect();
    let second: Vec<u8> = (0..2 * BLOCK).map(|k| (k * 9 + 2) as u8).collect();
    assert_eq!(f.write(0, &first), Ok(3 * BLOCK));
    assert_eq!(f.write(3 * BLOCK, &second), Ok(2 * BLOCK));
    assert_eq!(f.size(), 5 * BLOCK);
    assert_eq!(f.read(0, 3 * BLOCK), first);
    assert_eq!(f.read(3 * BLOCK, 2 * BLOCK), second);
    assert_eq!(f.sectors(), 40);
    for i in 0..5 {
        assert_eq!(f.state(i), WRITTEN);
    }
}

#[test]
fn partial_write_into_recycled_hole_reads_zeros_not_stale() {
    let mut f = file(Some(64));
    f.write(0, &filled(0xAB, BLOCK)).unwrap();
    f.flush(0, BLOCK).unwrap();
    let recycled = f.extents[&0].0;
    f.resize(0).unwrap();
    f.write(200, &filled(0xCD, 100)).unwrap();
    assert_eq!(f.extents[&0].0, recycled);
    assert_eq!(f.read(0, 200), zeros(200));
    assert_eq!(f.read(200, 100), filled(0xCD, 100));
    assert_eq!(f.state(0), WRITTEN);
}

#[test]
fn overwrite_of_written_block_converts_nothing() {
    let mut f = file(Some(64));
    f.write(0, &filled(0x11, BLOCK)).unwrap();
    f.write(0, &filled(0x22, BLOCK)).unwrap();
    assert_eq!(f.sectors(), 8);
    assert_eq!(f.read(0, BLOCK), filled(0x22, BLOCK));
    assert_eq!(f.state(0), WRITTEN);
}

#[test]
fn shrink_into_hole_leaves_no_dirty_tail_page() {
    let mut f = file(Some(64));
    f.write(0, &filled(0xEE, BLOCK)).unwrap();
    f.resize(3 * BLOCK).unwrap();
    assert_eq!(f.read(BLOCK, BLOCK), zeros(BLOCK));
    f.resize(BLOCK + 100).unwrap();
    assert_eq!(f.flush(0, 3 * BLOCK), Ok(()));
    assert_eq!(f.state(1), HOLE);
    assert_eq!(f.read(0, 100), filled(0xEE, 100));
    assert_eq!(f.read(BLOCK, 100), zeros(100));
}

#[test]
fn gap_write_past_unaligned_hole_eof_leaves_no_dirty_boundary_page() {
    let mut f = file(Some(64));
    f.write(0, &filled(0xEE, BLOCK)).unwrap();
    f.resize(BLOCK + 100).unwrap();
    f.write(4 * BLOCK, &filled(0xBB, 100)).unwrap();
    assert_eq!(f.flush(0, 5 * BLOCK), Ok(()));
    assert_eq!(f.state(1), HOLE);
    assert_eq!(f.read(BLOCK, 100), zeros(100));
    assert_eq!(f.read(4 * BLOCK, 100), filled(0xBB, 100));
    assert_eq!(f.read(0, 100), filled(0xEE, 100));
}

#[test]
fn covered_extend_write_across_unaligned_hole_eof_reads_zeros() {
    let mut f = file(Some(64));
    f.write(0, &filled(0xEE, BLOCK)).unwrap();
    f.resize(BLOCK + 100).unwrap();
    f.write(BLOCK + 200, &filled(0xBB, 100)).unwrap();
    assert_eq!(f.flush(0, 2 * BLOCK), Ok(()));
    assert_eq!(f.read(BLOCK, 200), zeros(200));
    assert_eq!(f.read(BLOCK + 200, 100), filled(0xBB, 100));
}

#[test]
fn expand_from_unaligned_hole_eof_leaves_no_dirty_page() {
    let mut f = file(Some(64));
    f.write(0, &filled(0xEE, BLOCK)).unwrap();
    f.resize(BLOCK + 100).unwrap();
    f.resize(3 * BLOCK).unwrap();
    assert_eq!(f.flush(0, 3 * BLOCK), Ok(()));
    assert_eq!(f.state(1), HOLE);
    assert_eq!(f.read(BLOCK, BLOCK), zeros(BLOCK));
}

#[test]
fn fdatasync_follows_size_changing_truncate() {
    let mut f = file(Some(64));
    f.write(0, &filled(0xAB, 2 * BLOCK)).unwrap();
    let write = f.inode.datasync_tid.unwrap();
    f.resize(BLOCK).unwrap();
    let dsync = f.inode.datasync_tid.unwrap();
    assert!(dsync.geq(write.next()));
    assert_eq!(f.inode.sync_tid, Some(dsync));
}

#[test]
fn write_faults() {
    let f = file(None);
    let fault = |offset, len| match f.inode.write_at(offset, len, None, MAX_FILE_SIZE) {
        Ok(WritePlan::Single(plan)) => plan.fault,
        Ok(_) => None,
        Err(e) => Some(e),
    };
    assert_eq!(fault(u64::MAX, 1), Some(Error::RangeOverflow));
    assert_eq!(fault(1 << 45, 1), Some(Error::BlockIndexTooWide));
    assert_eq!(fault(MAX_FILE_SIZE, 1), Some(Error::SizeLimit));
    assert_eq!(fault(MAX_FILE_SIZE - 1, 1), None);
    assert!(matches!(
        f.inode.write_at(5, 0, None, MAX_FILE_SIZE),
        Ok(WritePlan::Nothing)
    ));
    let fifo = new_inode(InodeType::NamedPipe);
    let fault = |max_credits| match fifo.write_at(0, 1, max_credits, MAX_FILE_SIZE) {
        Ok(WritePlan::Single(plan)) => plan.fault,
        Ok(WritePlan::Refused(e)) => Some(e),
        Ok(_) => None,
        Err(e) => Some(e),
    };
    assert_eq!(fault(None), Some(Error::NoPageCache));
    assert_eq!(fault(Some(5)), Some(Error::NoBlockManager));
    assert!(matches!(
        f.inode.write_at(1 << 45, 1, Some(5), MAX_FILE_SIZE),
        Ok(WritePlan::Refused(Error::BlockIndexTooWide))
    ));
}

#[test]
fn failed_write_is_rolled_back() {
    let mut f = file(None);
    f.write(0, &filled(1, BLOCK)).unwrap();
    f.free = (2000..2001).collect();
    let err = f.write(BLOCK, &filled(2, 3 * BLOCK)).unwrap_err();
    assert_eq!(err, Error::Outside(Errno::ENOSPC));
    assert_eq!(f.size(), BLOCK);
    assert_eq!(f.sectors(), 8);
    assert_eq!(f.capacity, BLOCK);
    assert_eq!(f.read(0, BLOCK), filled(1, BLOCK));
}

#[test]
fn resize_faults() {
    let mut f = file(None);
    assert_eq!(f.resize(MAX_FILE_SIZE + 1), Err(Error::SizeLimit));
    assert_eq!(f.size(), 0);
    f.inode.set_file_size((1 << 45) + 5);
    assert_eq!(f.resize((1 << 45) + 1), Err(Error::BlockIndexTooWide));
    let fifo = new_inode(InodeType::NamedPipe);
    match fifo.resize(5, false, MAX_FILE_SIZE, 0, None) {
        Ok(ResizePlan::Whole(plan)) => {
            assert_eq!(plan.fault, Some(Error::NoPageCache));
        }
        _ => panic!("one transaction is expected"),
    }
}

#[test]
fn fallocate_faults() {
    let f = file(None);
    let fault = |mode, offset, len| {
        f.inode
            .fallocate(mode, offset, len, None, MAX_FILE_SIZE)
            .err()
    };
    assert_eq!(
        fault(FallocMode::Allocate, u64::MAX, 1),
        Some(Error::RangeOverflow)
    );
    assert_eq!(
        fault(FallocMode::Allocate, 0, MAX_FILE_SIZE + 1),
        Some(Error::SizeLimit)
    );
    for mode in [
        FallocMode::ZeroRange,
        FallocMode::ZeroRangeKeepSize,
        FallocMode::CollapseRange,
        FallocMode::InsertRange,
        FallocMode::AllocateUnshareRange,
    ] {
        assert_eq!(fault(mode, 0, 1), Some(Error::UnsupportedFallocMode));
        assert_eq!(fault(mode, 0, 0), None);
    }
    assert_eq!(Error::UnsupportedFallocMode.error(), Errno::EOPNOTSUPP);
    let dir = new_inode(InodeType::Dir);
    let err = dir
        .fallocate(FallocMode::Allocate, 0, 1, None, MAX_FILE_SIZE)
        .err();
    assert_eq!(err, Some(Error::NotRegular));

    let mut f = file(None);
    f.write(0, &filled(1, 10)).unwrap();
    assert_eq!(f.fallocate(FallocMode::PunchHoleKeepSize, 10, 5), Ok(()));
    assert_eq!(
        f.fallocate(FallocMode::PunchHoleKeepSize, 5, u64::MAX),
        Err(Error::RangeOverflow)
    );
    f.fallocate(FallocMode::PunchHoleKeepSize, 4, 100).unwrap();
    assert_eq!(f.read(0, 10), [1, 1, 1, 1, 0, 0, 0, 0, 0, 0]);
}
