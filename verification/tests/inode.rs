use ext4::bytes::BLOCK_SIZE;
use ext4::error::{Errno, Error};
use ext4::inode::desc::{
    empty_extent_root, Dtime, FileFlags, FilePerm, InodeDesc, InodeSeed, InodeType, FLAG_EXTENTS,
    FLAG_INDEX,
};
use ext4::inode::device::{
    decode_device_block, decode_device_numbers, encode_device_block, encode_device_numbers,
};
use ext4::inode::node::{
    DataForgetPolicy, ExtentSnapshot, Inode, InodePayload, SyncScope,
};
use ext4::inode::ops::{FileOp, Reserve};
use ext4::inode::raw::{
    inode_checksum, stamp_inode_checksum, verify_inode_checksum, FsCsumSeed, RawInode, INODE_SIZE,
};
use ext4::inode::symlink::{target_text, LinkPlan, LinkRead};
use ext4::inode::time::{decode_time, encode_time, Duration};
use ext4::journal::tid::Tid;

const SECTORS_PER_BLOCK: u64 = 8;

fn raw_root_dir() -> RawInode {
    let mut raw = RawInode::zero();
    raw.mode = 0o040755;
    raw.size_lo = BLOCK_SIZE as u32;
    raw.link_count = 2;
    raw.sector_count = SECTORS_PER_BLOCK as u32;
    raw.flags = FLAG_EXTENTS;
    raw.extra_isize = 32;
    raw
}

fn empty_file_inode() -> RawInode {
    let mut raw = RawInode::zero();
    raw.mode = 0o100644;
    raw.link_count = 1;
    raw.flags = FLAG_EXTENTS;
    raw.extra_isize = 32;
    raw.block = empty_extent_root();
    raw
}

fn desc_of(raw: &RawInode) -> InodeDesc {
    match InodeDesc::try_from(raw) {
        Ok(desc) => desc,
        Err(e) => panic!("the inode was refused: {:?}", e),
    }
}

fn refusal(raw: &RawInode) -> Option<Error> {
    InodeDesc::try_from(raw).err()
}

fn clean_extents() -> ExtentSnapshot {
    ExtentSnapshot {
        root: empty_extent_root(),
        sector_count: 0,
        dirty: false,
    }
}

fn secs(secs: u64) -> Duration {
    Duration::new(secs, 0)
}

#[test]
fn inode_checksum_round_trip() {
    let fs_seed = 0xFEED_BEEF;
    let ino = 12;
    let mut raw = raw_root_dir();
    raw.generation = 0x55AA;
    let iseed = FsCsumSeed(fs_seed).derive_inode(ino, raw.generation);

    let crc = inode_checksum(&raw, iseed, INODE_SIZE);
    raw.checksum_lo = (crc & 0xFFFF) as u16;
    raw.checksum_hi = ((crc >> 16) & 0xFFFF) as u16;
    verify_inode_checksum(&raw, iseed, INODE_SIZE).unwrap();

    let wrong_ino_seed = FsCsumSeed(fs_seed).derive_inode(ino + 1, raw.generation);
    let err = verify_inode_checksum(&raw, wrong_ino_seed, INODE_SIZE).unwrap_err();
    assert_eq!(err.error(), Errno::EUCLEAN);
    let mut regen = raw;
    regen.generation = 0x55AB;
    assert!(verify_inode_checksum(&regen, iseed, INODE_SIZE).is_err());
    let mut bad = raw;
    bad.size_lo += 1;
    assert!(verify_inode_checksum(&bad, iseed, INODE_SIZE).is_err());
    assert_eq!(inode_checksum(&raw, iseed, INODE_SIZE), crc);
}

#[test]
fn checksum_halves_are_told_apart() {
    let seed = FsCsumSeed(1).derive_inode(2, 3);
    let mut raw = raw_root_dir();
    stamp_inode_checksum(&mut raw, seed, INODE_SIZE);
    let mut low = raw;
    low.checksum_lo ^= 1;
    assert_eq!(
        verify_inode_checksum(&low, seed, INODE_SIZE),
        Err(Error::InodeChecksumLo)
    );
    let mut high = raw;
    high.checksum_hi ^= 1;
    assert_eq!(
        verify_inode_checksum(&high, seed, INODE_SIZE),
        Err(Error::InodeChecksumHi)
    );
    let mut small = raw_root_dir();
    stamp_inode_checksum(&mut small, seed, 128);
    assert_eq!(small.checksum_hi, 0);
    verify_inode_checksum(&small, seed, 128).unwrap();
}

#[test]
fn stamp_inode_checksum_round_trips_with_verify() {
    let mut raw = raw_root_dir();
    raw.generation = 0xC0FFEE;
    let iseed = FsCsumSeed(0x0102_0304).derive_inode(27, raw.generation);
    stamp_inode_checksum(&mut raw, iseed, INODE_SIZE);
    verify_inode_checksum(&raw, iseed, INODE_SIZE).unwrap();
    raw.link_count += 1;
    assert!(verify_inode_checksum(&raw, iseed, INODE_SIZE).is_err());
}

#[test]
fn decode_root_dir_inode() {
    let desc = desc_of(&raw_root_dir());
    assert_eq!(desc.type_(), InodeType::Dir);
    assert_eq!(desc.size(), BLOCK_SIZE as u64);
    assert_eq!(desc.link_count(), 2);
    assert!(desc.is_extent_based());
    assert_eq!(desc.sector_count(), SECTORS_PER_BLOCK);
}

#[test]
fn decode_combines_uid_gid_high() {
    let mut raw = raw_root_dir();
    raw.uid = 0x1111;
    raw.uid_high = 0x2222;
    raw.gid = 0x3333;
    raw.gid_high = 0x4444;
    let desc = desc_of(&raw);
    assert_eq!(desc.uid, 0x2222_1111);
    assert_eq!(desc.gid, 0x4444_3333);
}

#[test]
fn decode_combines_size_high_for_file() {
    let mut raw = raw_root_dir();
    raw.mode = 0o100644;
    raw.link_count = 1;
    raw.size_lo = 0x0000_1000;
    raw.size_high = 0x0000_0001;
    let desc = desc_of(&raw);
    assert_eq!(desc.type_(), InodeType::File);
    assert_eq!(desc.size(), (1u64 << 32) | 0x1000);
}

#[test]
fn decode_nanosecond_time() {
    let mut raw = raw_root_dir();
    raw.mtime = 1000;
    raw.mtime_extra = 500 << 2;
    assert_eq!(desc_of(&raw).mtime, Duration::new(1000, 500));
}

#[test]
fn reject_unused_inode() {
    let mut raw = raw_root_dir();
    raw.link_count = 0;
    assert_eq!(refusal(&raw), Some(Error::InodeNotInUse));
    assert_eq!(Error::InodeNotInUse.error(), Errno::ESTALE);
}

#[test]
fn reject_faulty_inodes() {
    let mut raw = raw_root_dir();
    raw.mode = 0o030755;
    assert_eq!(refusal(&raw), Some(Error::InvalidMode));
    raw.mode = 0o120777;
    raw.size_lo = BLOCK_SIZE as u32;
    assert_eq!(refusal(&raw), Some(Error::SymlinkTooLarge));
    raw.mode = 0o100644;
    raw.size_high = 0x8000_0000;
    assert_eq!(refusal(&raw), Some(Error::InodeTooLarge));
}

#[test]
fn decode_time_signed_epoch_semantics() {
    assert_eq!(decode_time(0x8000_0000, 0b01), Duration::new(1 << 31, 0));
    assert_eq!(decode_time(u32::MAX, 0), Duration::new(0, 0));
    assert_eq!(decode_time(1000, 7 << 2), Duration::new(1000, 7));
}

#[test]
fn encode_time_is_the_reverse_and_clamps() {
    assert_eq!(encode_time(Duration::new(1000, 7)), (1000, 7 << 2));
    assert_eq!(encode_time(secs((1 << 33) + 5)), (5, 2));
    assert_eq!(encode_time(secs(1 << 31)), (0x8000_0000, 1));
    assert_eq!(encode_time(secs(1 << 40)), (0x7FFF_FFFF, 3));
    for secs in [0, 1 << 31, u64::from(u32::MAX), (3 << 32) + 77, 0x3_7FFF_FFFF] {
        let time = Duration::new(secs, 999_999_999);
        let (base, extra) = encode_time(time);
        assert_eq!(decode_time(base, extra), time);
    }
}

#[test]
fn device_block_encoding_roundtrip() {
    for (major, minor) in [(8, 1), (255, 255), (300, 7), (1, 70000), (4095, 1048575)] {
        let id = encode_device_numbers(major, minor);
        assert_eq!(decode_device_numbers(id), (major, minor));
        let block = encode_device_block(id);
        assert_eq!(
            decode_device_block(&block),
            id,
            "major={major} minor={minor}"
        );
    }
    assert_eq!(encode_device_block(encode_device_numbers(8, 1))[0], 0x801);
}

#[test]
fn new_descriptors_hold_their_seed() {
    let perm = FilePerm::from_bits_truncate(0o17644);
    assert_eq!(perm.bits(), 0o7644);
    let now = secs(5);
    let file = InodeDesc::new(
        InodeType::File,
        perm,
        1,
        2,
        1,
        9,
        now,
        InodeSeed::ExtentRoot,
    );
    assert!(file.is_extent_based());
    assert_eq!(file.block, empty_extent_root());
    assert_eq!(file.device_id(), None);
    assert!(file.dtime_is_live());
    let id = encode_device_numbers(8, 1);
    let disk = InodeDesc::new(
        InodeType::BlockDevice,
        perm,
        1,
        2,
        1,
        9,
        now,
        InodeSeed::Device(id),
    );
    assert!(!disk.is_extent_based());
    assert_eq!(disk.device_id(), Some(id));
    let fifo = InodeDesc::new(
        InodeType::NamedPipe,
        perm,
        1,
        2,
        1,
        9,
        now,
        InodeSeed::Nothing,
    );
    assert_eq!(fifo.block, [0; 15]);
}

#[test]
fn getters_give_the_content() {
    let mut raw = raw_root_dir();
    raw.uid = 5;
    raw.gid = 6;
    raw.atime = 1;
    raw.ctime = 2;
    raw.mtime = 3;
    raw.crtime = 4;
    let inode = Inode::new(2, desc_of(&raw), None);
    assert_eq!(inode.ino(), 2);
    assert_eq!(inode.inode_type(), InodeType::Dir);
    assert_eq!(inode.size(), BLOCK_SIZE as u64);
    assert_eq!(inode.perm().bits(), 0o755);
    assert_eq!((inode.uid(), inode.gid()), (5, 6));
    assert_eq!(inode.link_count(), 2);
    assert_eq!(inode.atime(), secs(1));
    assert_eq!(inode.ctime(), secs(2));
    assert_eq!(inode.mtime(), secs(3));
    assert_eq!(inode.crtime(), secs(4));
    assert_eq!(inode.device_id(), None);
}

#[test]
fn dtime_is_stored_without_wrapping() {
    assert_eq!(Dtime::Time(secs(77)).to_raw(), 77);
    assert_eq!(Dtime::Time(secs(1 << 32)).to_raw(), u32::MAX);
    assert_eq!(Dtime::OrphanNext(Some(12)).to_raw(), 12);
    assert_eq!(Dtime::OrphanNext(None).to_raw(), 0);
}

#[test]
fn write_back_inode_desc_is_lossless() {
    let mut raw = empty_file_inode();
    raw.generation = 0xDEAD_BEEF;
    raw.checksum_lo = 0x1234;
    raw.extra_isize = 32;
    raw.uid = 0x1111;
    raw.uid_high = 0x2222;
    raw.crtime = 1234;
    raw.projid = 77;
    raw.tail[5] = 9;
    raw.file_acl_lo = 0x8765_4321;
    raw.file_acl_high = 0x12;
    let mut inode = Inode::new(11, desc_of(&raw), None);
    inode.set_file_size(b"persisted".len() as u64);
    let mut root = empty_extent_root();
    root[0] = 0x0001_F30A;
    let extents = ExtentSnapshot {
        root,
        sector_count: SECTORS_PER_BLOCK,
        dirty: true,
    };
    assert_eq!(inode.sector_count(&extents), SECTORS_PER_BLOCK);
    let slot = Some(raw);
    let tid = Some(Tid::new(3));
    let after = inode
        .write_back(&extents, slot, None, INODE_SIZE, tid)
        .unwrap();
    assert_eq!(after.size_lo, b"persisted".len() as u32);
    assert_eq!(after.sector_count, 8);
    assert_eq!(after.block, root);
    assert_ne!(after.block, raw.block);
    assert_eq!(after.generation, raw.generation);
    assert_eq!(after.checksum_lo, raw.checksum_lo);
    assert_eq!(after.projid, raw.projid);
    assert_eq!(after.tail, raw.tail);
    assert_eq!(after.file_acl_lo, raw.file_acl_lo);
    assert_eq!(after.file_acl_high, raw.file_acl_high);
    assert_eq!(after.extra_isize, raw.extra_isize);
    assert_eq!(after.uid, raw.uid);
    assert_eq!(after.uid_high, raw.uid_high);
    assert_eq!(after.crtime, raw.crtime);
    assert_eq!(after.crtime_extra, raw.crtime_extra);
    assert_eq!(after.mode, 0o100644);

    assert_eq!(inode.sync_tid, tid);
    assert_eq!(inode.desc.sector_count(), SECTORS_PER_BLOCK);
    let later = Some(Tid::new(4));
    assert!(inode
        .write_back(&clean_extents(), None, None, INODE_SIZE, later)
        .is_none());
    assert_eq!(inode.sync_tid, tid);
    let again = RawInode::from_bytes(&after.as_bytes());
    assert_eq!(again.as_bytes(), after.as_bytes());
}

#[test]
fn write_back_names_the_next_orphan_while_listed() {
    let mut inode = Inode::new(11, desc_of(&empty_file_inode()), Some(FsCsumSeed(7)));
    inode.set_dtime(secs(99));
    let listed = inode
        .write_back(&clean_extents(), None, Some(Some(42)), INODE_SIZE, None)
        .unwrap();
    assert_eq!(listed.dtime, 42);
    verify_inode_checksum(&listed, inode.csum_seed.unwrap(), INODE_SIZE).unwrap();
    inode.set_dtime(secs(99));
    let unlisted = inode
        .write_back(&clean_extents(), None, None, INODE_SIZE, None)
        .unwrap();
    assert_eq!(unlisted.dtime, 99);
    inode.set_orphan_next(Some(13));
    assert!(!inode.desc.dtime_is_live());
}

#[test]
fn payload_follows_the_type() {
    let file = Inode::new(11, desc_of(&empty_file_inode()), None);
    assert!(matches!(
        file.payload,
        InodePayload::DataBacked {
            forget: DataForgetPolicy::PlainData,
            npages: 0
        }
    ));
    let dir = Inode::new(2, desc_of(&raw_root_dir()), None);
    assert!(matches!(
        dir.payload,
        InodePayload::DataBacked {
            forget: DataForgetPolicy::Forget,
            npages: 1
        }
    ));
    let mut raw = empty_file_inode();
    raw.mode = 0o010644;
    let fifo = Inode::new(3, desc_of(&raw), None);
    assert!(matches!(fifo.payload, InodePayload::NoPayload));
    assert_eq!(fifo.read_at(0, 5), Ok(0));
}

#[test]
fn reads_are_clamped_to_the_size() {
    let mut inode = Inode::new(11, desc_of(&empty_file_inode()), None);
    inode.set_file_size(100);
    assert_eq!(inode.read_at(0, 0), Ok(0));
    assert_eq!(inode.read_at(40, 10), Ok(10));
    assert_eq!(inode.read_at(40, 1000), Ok(60));
    assert_eq!(inode.read_at(100, 10), Ok(0));
    let mut raw = empty_file_inode();
    raw.mode = 0o020644;
    raw.size_lo = 10;
    let device = Inode::new(3, desc_of(&raw), None);
    assert_eq!(device.read_at(0, 5), Err(Error::NoPageCache));
}

#[test]
fn recovery_reads_deleted_and_live_inodes() {
    let mut raw = empty_file_inode();
    raw.link_count = 0;
    let dead = Inode::from_raw_for_recovery(11, &raw, None).unwrap();
    assert_eq!(dead.desc.link_count(), 0);
    assert!(Inode::from_raw_live(11, &raw, None).is_err());
    raw.link_count = 3;
    raw.dtime = 17;
    let live = Inode::from_raw_live(11, &raw, None).unwrap();
    assert_eq!(live.desc.link_count(), 3);
    assert!(!live.desc.dtime_is_live());
}

#[test]
fn links_and_flags_change() {
    let mut inode = Inode::new(2, desc_of(&raw_root_dir()), None);
    inode.inc_link_count(3);
    assert_eq!(inode.desc.link_count(), 5);
    inode.dec_link_count(9);
    assert_eq!(inode.desc.link_count(), 0);
    inode.set_link_count(1);
    assert_eq!(inode.desc.link_count(), 1);
    inode.desc.insert_flags(FileFlags(FLAG_INDEX));
    inode.remove_flags(FileFlags(FLAG_INDEX));
    assert_eq!(inode.desc.flags, FileFlags(FLAG_EXTENTS));
}

#[test]
fn setattr_on_non_journaled_volume_stays_buffered() {
    let mut inode = Inode::new(11, desc_of(&empty_file_inode()), None);
    inode.set_mode(0o600, secs(9));
    inode.set_owner(4242, secs(10));
    inode.set_group(7, secs(11));
    inode.set_atime(secs(111));
    inode.set_mtime(secs(222));
    assert_eq!(inode.desc.ctime, secs(11));
    assert!(inode.is_dirty(&clean_extents()));
    assert!(inode.sync_tid.is_none());
    assert!(inode.datasync_tid.is_none());

    let raw = inode
        .write_back(&clean_extents(), None, None, INODE_SIZE, None)
        .unwrap();
    assert!(!inode.is_dirty(&clean_extents()));
    let reloaded = desc_of(&raw);
    assert_eq!(reloaded.perm.bits() & 0o777, 0o600);
    assert_eq!(reloaded.uid, 4242);
    assert_eq!(reloaded.gid, 7);
    assert_eq!(reloaded.atime, secs(111));
    assert_eq!(reloaded.mtime, secs(222));
    assert!(inode.sync_tid.is_none());
}

#[test]
fn fdatasync_narrows_to_datasync_tid_excluding_chmod() {
    let mut inode = Inode::new(11, desc_of(&empty_file_inode()), None);
    let write = Tid::new(1);
    let chmod = Tid::new(2);
    inode.set_file_size(4096);
    inode.clear_dirty(&clean_extents(), Some(write));
    inode.stamp_datasync_tid(Some(write));
    inode.set_mode(0o600, secs(9));
    inode.clear_dirty(&clean_extents(), Some(chmod));
    assert_eq!(inode.datasync_tid, Some(write));
    assert_eq!(
        inode.sync_wait_tid(SyncScope::DataOnly, false, None),
        Some(write)
    );
    assert_eq!(inode.sync_wait_tid(SyncScope::Full, false, None), Some(chmod));
    let op = Some(Tid::new(3));
    assert_eq!(inode.sync_wait_tid(SyncScope::DataOnly, true, op), op);
}

#[test]
fn sync_writes_data_and_then_the_inode() {
    let mut file = Inode::new(11, desc_of(&empty_file_inode()), None);
    let begin = FileOp::BeginOp(Reserve::Sync);
    assert_eq!(file.sync_data_and_meta(true), vec![begin, FileOp::WriteBack]);
    file.set_file_size(100);
    let flush = FileOp::FlushPages { start: 0, end: 100 };
    assert_eq!(
        file.sync_data_and_meta(true),
        vec![flush, begin, FileOp::WriteBack]
    );
    assert_eq!(file.sync_metadata(), vec![begin, FileOp::WriteBack]);
    assert_eq!(
        file.journal_attr_change(true),
        vec![FileOp::BeginOp(Reserve::Setattr), FileOp::WriteBack]
    );
    assert_eq!(file.journal_attr_change(false), vec![]);
}

#[test]
fn sync_leaves_journaled_directories_alone() {
    let dir = Inode::new(2, desc_of(&raw_root_dir()), None);
    assert_eq!(dir.sync_data_pages(true), None);
    assert_eq!(dir.sync_data_pages(false), Some(BLOCK_SIZE as u64));
    let file = Inode::new(11, desc_of(&empty_file_inode()), None);
    assert_eq!(file.sync_data_pages(true), None);
}

fn symlink() -> Inode {
    let desc = InodeDesc::new(
        InodeType::SymLink,
        FilePerm::from_bits_truncate(0o777),
        0,
        0,
        1,
        0,
        secs(1),
        InodeSeed::ExtentRoot,
    );
    Inode::new(20, desc, None)
}

fn text_of(inode: &Inode) -> String {
    match inode.read_link() {
        Ok(LinkRead::Text(text)) => text,
        Ok(LinkRead::Block { .. }) => panic!("the target is in a block"),
        Err(e) => panic!("no target: {:?}", e),
    }
}

#[test]
fn fresh_symlink_decodes() {
    let link = symlink();
    assert_eq!(link.desc.type_(), InodeType::SymLink);
    assert_eq!(link.desc.size(), 0);
    assert!(link.desc.is_extent_based());
    assert!(!link.is_fast_symlink());
}

#[test]
fn fast_symlink_round_trip() {
    let mut link = symlink();
    let target = "../relative/path/target";
    assert!(matches!(
        link.write_link(target),
        Ok(LinkPlan::Inline(ops)) if ops.len() == 1
    ));
    link.keep_link_inline(target, secs(2));
    assert_eq!(text_of(&link), target);
    assert_eq!(link.desc.size(), target.len() as u64);
    assert!(link.is_fast_symlink());
    assert!(!link.desc.is_extent_based());
    assert_eq!(link.sector_count(&clean_extents()), 0);

    let raw = link
        .write_back(&clean_extents(), None, None, INODE_SIZE, None)
        .unwrap();
    let reread = Inode::new(20, desc_of(&raw), None);
    assert!(reread.is_fast_symlink());
    assert_eq!(text_of(&reread), target);
}

#[test]
fn switching_to_a_block_restores_the_extents() {
    let mut link = symlink();
    link.keep_link_inline("short", secs(2));
    assert!(!link.desc.is_extent_based());
    let long = "y".repeat(60);
    assert!(matches!(
        link.write_link(&long),
        Ok(LinkPlan::Block { .. })
    ));
    link.switch_to_block();
    assert!(link.desc.is_extent_based());
    assert!(!link.is_fast_symlink());
}

#[test]
fn target_of_59_bytes_is_kept_inline() {
    let mut link = symlink();
    let target = "z".repeat(59);
    assert!(matches!(link.write_link(&target), Ok(LinkPlan::Inline(_))));
    link.keep_link_inline(&target, secs(2));
    assert_eq!(text_of(&link), target);
}

#[test]
fn multibyte_targets_round_trip() {
    let mut link = symlink();
    link.keep_link_inline("d\u{e9}j\u{e0}/\u{4e16}\u{754c}", secs(2));
    assert_eq!(text_of(&link), "d\u{e9}j\u{e0}/\u{4e16}\u{754c}");
    assert_eq!(link.desc.size(), 13);
}

#[test]
fn target_must_be_text() {
    let err = target_text(vec![0xFF, 0xFE]).unwrap_err();
    assert_eq!(err, Error::TargetNotUtf8);
    assert_eq!(err.error(), Errno::EIO);
    let mut raw = empty_file_inode();
    raw.mode = 0o120777;
    raw.flags = 0;
    raw.size_lo = 1;
    raw.block[0] = 0xFF;
    let link = Inode::new(20, desc_of(&raw), None);
    assert!(matches!(link.read_link(), Err(Error::TargetNotUtf8)));
}

#[test]
fn rejects_non_symlink() {
    let dir = Inode::new(2, desc_of(&raw_root_dir()), None);
    assert!(matches!(dir.read_link(), Err(Error::NotSymlink)));
    assert!(matches!(dir.write_link("nope"), Err(Error::NotSymlink)));
    assert_eq!(Error::NotSymlink.error(), Errno::EINVAL);
}

#[test]
fn rejects_overlong_target() {
    let link = symlink();
    let target = "a".repeat(BLOCK_SIZE);
    assert!(matches!(
        link.write_link(&target),
        Err(Error::TargetTooLong)
    ));
    assert_eq!(Error::TargetTooLong.error(), Errno::ENAMETOOLONG);
}
