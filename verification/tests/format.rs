use ext4::bytes::{read_be16, read_be32, read_be64, BLOCK_SIZE};
use ext4::error::{Errno, Error};
use ext4::journal::format::{
    JournalCsumSeed, RawJournalHeader, BLOCKTYPE_COMMIT, BLOCKTYPE_DESCRIPTOR,
    BLOCKTYPE_SUPERBLOCK_V1, BLOCKTYPE_SUPERBLOCK_V2, COMMIT_CHKSUM_OFFSET, COMPAT_CHECKSUM,
    DESCRIPTOR_TAIL_BYTES, INCOMPAT_64BIT, INCOMPAT_CSUM_V2, INCOMPAT_CSUM_V3, INCOMPAT_REVOKE,
    JBD2_CRC32C_CHKSUM, JBD2_MAGIC, TAG_FLAG_ESCAPE, TAG_FLAG_LAST_TAG, TAG_FLAG_SAME_UUID,
};
use ext4::journal::superblock::{
    JournalSuperblock, RawJournalSuperblock, H_BLOCKTYPE, S_BLOCKSIZE, S_CHECKSUM,
    S_CHECKSUM_TYPE, S_FEATURE_COMPAT, S_FEATURE_INCOMPAT, S_FEATURE_RO_COMPAT, S_FIRST, S_MAXLEN,
    S_SEQUENCE, S_START, S_UUID,
};
use ext4::journal::tag::{DescriptorTag, TagChecksum, TagLayout};
use ext4::journal::tid::Tid;

const S_NR_USERS: usize = 64;

fn valid_raw(maxlen: u32, first: u32, sequence: u32, start: u32) -> RawJournalSuperblock {
    let mut raw = RawJournalSuperblock { bytes: [0; 1024] };
    raw.set_word(0, JBD2_MAGIC);
    raw.set_word(H_BLOCKTYPE, BLOCKTYPE_SUPERBLOCK_V2);
    raw.set_word(S_BLOCKSIZE, BLOCK_SIZE as u32);
    raw.set_word(S_MAXLEN, maxlen);
    raw.set_word(S_FIRST, first);
    raw.set_word(S_SEQUENCE, sequence);
    raw.set_word(S_START, start);
    raw.set_word(S_NR_USERS, 1);
    raw
}

fn copy(raw: &RawJournalSuperblock) -> RawJournalSuperblock {
    RawJournalSuperblock { bytes: raw.bytes }
}

fn refusal(raw: &RawJournalSuperblock) -> Error {
    match JournalSuperblock::try_from(raw) {
        Ok(_) => panic!("the superblock was taken"),
        Err(e) => e,
    }
}

fn parsed(raw: &RawJournalSuperblock) -> JournalSuperblock {
    match JournalSuperblock::try_from(raw) {
        Ok(sb) => sb,
        Err(e) => panic!("the superblock was refused: {:?}", e),
    }
}

fn layout_of(features: u32) -> TagLayout {
    match TagLayout::from_features(features) {
        Ok(layout) => layout,
        Err(e) => panic!("no layout for {:#x}: {:?}", features, e),
    }
}

fn tags_of(layout: &TagLayout, block: &[u8; BLOCK_SIZE]) -> Vec<DescriptorTag> {
    let mut tags = Vec::new();
    let mut walk = layout.walk(block);
    while let Some(tag) = walk.next() {
        match tag {
            Ok(tag) => tags.push(tag),
            Err(e) => panic!("bad tag: {:?}", e),
        }
    }
    tags
}

#[test]
fn be_newtypes_round_trip() {
    assert_eq!(read_be16(&0x1234u16.to_be_bytes(), 0), 0x1234);
    assert_eq!(read_be32(&[0xC0, 0x3B, 0x39, 0x98], 0), 0xC03B_3998);
    assert_eq!(
        read_be64(&0x0123_4567_89AB_CDEFu64.to_be_bytes(), 0),
        0x0123_4567_89AB_CDEF
    );
}

#[test]
fn journal_superblock_ground_truth_bytes() {
    let raw = valid_raw(1024, 1, 1, 0);
    let bytes = &raw.bytes;
    assert_eq!(&bytes[0..4], &[0xC0, 0x3B, 0x39, 0x98]);
    assert_eq!(&bytes[4..8], &[0x00, 0x00, 0x00, 0x04]);
    assert_eq!(&bytes[8..12], &[0x00, 0x00, 0x00, 0x00]);
    assert_eq!(&bytes[12..16], &[0x00, 0x00, 0x10, 0x00]);
    assert_eq!(&bytes[16..20], &[0x00, 0x00, 0x04, 0x00]);
    assert_eq!(&bytes[20..24], &[0x00, 0x00, 0x00, 0x01]);
    assert_eq!(&bytes[24..28], &[0x00, 0x00, 0x00, 0x01]);
    assert_eq!(&bytes[64..68], &[0x00, 0x00, 0x00, 0x01]);
}

#[test]
fn parse_valid_journal_superblock() {
    let sb = parsed(&valid_raw(1024, 1, 7, 3));
    assert_eq!(sb.maxlen(), 1024);
    assert_eq!(sb.first(), 1);
    assert_eq!(sb.sequence(), Tid::new(7));
    assert_eq!(sb.start(), 3);
    assert_eq!(sb.blocksize(), BLOCK_SIZE as u32);
}

#[test]
fn reject_bad_magic() {
    let mut raw = valid_raw(1024, 1, 1, 0);
    raw.set_word(0, 0x1234_5678);
    assert_eq!(refusal(&raw), Error::BadSuperblockMagic);
}

#[test]
fn reject_bad_blocktype() {
    let mut raw = valid_raw(1024, 1, 1, 0);
    raw.set_word(H_BLOCKTYPE, BLOCKTYPE_DESCRIPTOR);
    assert_eq!(refusal(&raw), Error::BadSuperblockType);
}

#[test]
fn accept_superblock_v1_blocktype() {
    let mut raw = valid_raw(1024, 1, 1, 0);
    raw.set_word(H_BLOCKTYPE, BLOCKTYPE_SUPERBLOCK_V1);
    assert!(JournalSuperblock::try_from(&raw).is_ok());
}

#[test]
fn reject_bad_blocksize() {
    let mut raw = valid_raw(1024, 1, 1, 0);
    raw.set_word(S_BLOCKSIZE, 1024);
    assert_eq!(refusal(&raw), Error::BadBlockSize);
}

#[test]
fn reject_bad_first() {
    assert_eq!(refusal(&valid_raw(1024, 0, 1, 0)), Error::FirstOutOfRange);
    assert_eq!(refusal(&valid_raw(4, 4, 1, 0)), Error::FirstOutOfRange);
}

#[test]
fn reject_too_small() {
    assert_eq!(refusal(&valid_raw(1, 1, 1, 0)), Error::JournalTooSmall);
}

#[test]
fn parse_gates_csum_layouts_on_superblock_integrity() {
    let mut raw = valid_raw(1024, 1, 1, 0);
    raw.set_word(S_FEATURE_INCOMPAT, INCOMPAT_64BIT);
    assert!(parsed(&raw).csum_seed().is_none());

    let mut raw = valid_raw(1024, 1, 1, 0);
    raw.set_word(S_FEATURE_INCOMPAT, INCOMPAT_CSUM_V3);
    assert_eq!(refusal(&raw), Error::BadChecksumType);
    assert_eq!(refusal(&raw).error(), Errno::EINVAL);

    raw.bytes[S_CHECKSUM_TYPE] = JBD2_CRC32C_CHKSUM;
    let wrong = raw.checksum() ^ 1;
    raw.set_word(S_CHECKSUM, wrong);
    assert_eq!(refusal(&raw), Error::SuperblockChecksum);
    assert_eq!(refusal(&raw).error(), Errno::EUCLEAN);

    let right = raw.checksum();
    raw.set_word(S_CHECKSUM, right);
    assert!(parsed(&raw).csum_seed().is_some());
}

#[test]
fn reject_v1_checksum_with_csum_v2or3() {
    for csum_feature in [INCOMPAT_CSUM_V2, INCOMPAT_CSUM_V3] {
        let mut raw = valid_raw(1024, 1, 1, 0);
        raw.set_word(S_FEATURE_INCOMPAT, csum_feature);
        raw.set_word(S_FEATURE_COMPAT, COMPAT_CHECKSUM);
        raw.bytes[S_CHECKSUM_TYPE] = JBD2_CRC32C_CHKSUM;
        let csum = raw.checksum();
        raw.set_word(S_CHECKSUM, csum);
        assert_eq!(refusal(&raw), Error::BothChecksumVersions);
        assert_eq!(refusal(&raw).error(), Errno::EINVAL);
    }

    let mut raw = valid_raw(1024, 1, 1, 0);
    raw.set_word(S_FEATURE_COMPAT, COMPAT_CHECKSUM);
    assert!(JournalSuperblock::try_from(&raw).is_ok());
}

#[test]
fn v1_blocktype_ignores_feature_words() {
    let mut raw = valid_raw(1024, 1, 1, 0);
    raw.set_word(H_BLOCKTYPE, BLOCKTYPE_SUPERBLOCK_V1);
    raw.set_word(S_FEATURE_COMPAT, COMPAT_CHECKSUM | 0xDEAD_0000);
    raw.set_word(
        S_FEATURE_INCOMPAT,
        INCOMPAT_CSUM_V2 | INCOMPAT_CSUM_V3 | INCOMPAT_64BIT | 0x40,
    );
    raw.set_word(S_FEATURE_RO_COMPAT, 0xFFFF_FFFF);

    let sb = parsed(&raw);
    assert_eq!(sb.tag_layout(), layout_of(0));
    assert!(sb.csum_seed().is_none());
}

#[test]
fn superblock_checksum_excludes_own_field() {
    let raw = valid_raw(1024, 1, 1, 0);
    let base = raw.checksum();

    let mut stamped = copy(&raw);
    stamped.set_word(S_CHECKSUM, base);
    assert_eq!(stamped.checksum(), base);

    let mut touched = copy(&raw);
    touched.set_word(S_SEQUENCE, 2);
    assert_ne!(touched.checksum(), base);
}

#[test]
fn accept_revoke_incompat() {
    let mut raw = valid_raw(1024, 1, 1, 0);
    raw.set_word(S_FEATURE_INCOMPAT, INCOMPAT_REVOKE);
    assert!(JournalSuperblock::try_from(&raw).is_ok());
}

#[test]
fn tag_layout_derivation_vectors() {
    let cases: [(u32, usize, usize); 7] = [
        (0, 8, 0),
        (INCOMPAT_REVOKE, 8, 0),
        (INCOMPAT_64BIT, 12, 0),
        (INCOMPAT_CSUM_V3, 16, 4),
        (INCOMPAT_CSUM_V3 | INCOMPAT_64BIT, 16, 4),
        (INCOMPAT_CSUM_V2, 10, 4),
        (INCOMPAT_CSUM_V2 | INCOMPAT_64BIT, 14, 4),
    ];
    for (features, tag_bytes, tail) in cases {
        let layout = layout_of(features);
        assert_eq!(layout.tag_bytes, tag_bytes, "features {features:#x}");
        assert_eq!(layout.descriptor_tail_bytes, tail, "features {features:#x}");
    }
    let both = TagLayout::from_features(INCOMPAT_CSUM_V2 | INCOMPAT_CSUM_V3);
    assert_eq!(both, Err(Error::BothCsumV2V3));
}

#[test]
fn tag_layout_capacity_math() {
    let capacity = |features: u32| layout_of(features).tags_per_descriptor();
    assert_eq!(capacity(0), (BLOCK_SIZE - 12 - 16) / 8);
    assert_eq!(capacity(INCOMPAT_64BIT), (BLOCK_SIZE - 12 - 16) / 12);
    assert_eq!(capacity(INCOMPAT_CSUM_V3), (BLOCK_SIZE - 4 - 12 - 16) / 16);
    assert_eq!(
        capacity(INCOMPAT_CSUM_V3 | INCOMPAT_64BIT),
        (BLOCK_SIZE - 4 - 12 - 16) / 16
    );
    assert_eq!(capacity(INCOMPAT_CSUM_V2), (BLOCK_SIZE - 4 - 12 - 16) / 10);
    assert_eq!(
        capacity(INCOMPAT_CSUM_V2 | INCOMPAT_64BIT),
        (BLOCK_SIZE - 4 - 12 - 16) / 14
    );
}

#[test]
fn writer_requires_seed_iff_csum_layout() {
    let v3 = layout_of(INCOMPAT_CSUM_V3);
    let err = v3.writer([0; BLOCK_SIZE], Tid::new(1), None).err();
    assert_eq!(err, Some(Error::SeedMismatch));
    assert_eq!(Error::SeedMismatch.error(), Errno::EINVAL);

    let v0 = layout_of(0);
    let err = v0
        .writer([0; BLOCK_SIZE], Tid::new(1), Some(linux_seed()))
        .err();
    assert_eq!(err, Some(Error::SeedMismatch));
}

#[test]
fn put_blocknr_width_is_layout_gated() {
    let wide: u64 = (1 << 32) | 5;
    let data = [0; BLOCK_SIZE];

    let v0 = layout_of(0);
    let mut writer = v0.writer([0; BLOCK_SIZE], Tid::new(1), None).unwrap();
    let err = writer.put(wide, TAG_FLAG_LAST_TAG, &data).unwrap_err();
    assert_eq!(err, Error::BlockTooWide);
    assert_eq!(err.error(), Errno::EFBIG);

    let b64 = layout_of(INCOMPAT_64BIT);
    let mut writer = b64.writer([0; BLOCK_SIZE], Tid::new(1), None).unwrap();
    writer.put(wide, TAG_FLAG_LAST_TAG, &data).unwrap();
    let block = writer.finish();
    let tag = b64.walk(&block).next().unwrap().unwrap();
    assert_eq!(tag.blocknr(), wide);
    assert!(tag.is_last());
}

#[test]
fn tag_round_trip_64bit_layout() {
    let layout = layout_of(INCOMPAT_64BIT);
    let data = [0; BLOCK_SIZE];
    let tags: [(u64, u16); 3] = [
        (0x123, 0),
        ((7 << 32) | 42, TAG_FLAG_SAME_UUID),
        (0xFFFF_FFFF, TAG_FLAG_SAME_UUID | TAG_FLAG_LAST_TAG),
    ];
    let mut writer = layout.writer([0; BLOCK_SIZE], Tid::new(1), None).unwrap();
    for (blocknr, flags) in tags {
        writer.put(blocknr, flags, &data).unwrap();
    }
    let block = writer.finish();

    let decoded = tags_of(&layout, &block);
    assert_eq!(decoded.len(), 3);
    for ((blocknr, flags), tag) in tags.iter().zip(&decoded) {
        assert_eq!(tag.blocknr(), *blocknr);
        assert_eq!(tag.flags(), *flags);
    }
    assert_eq!(&block[40..44], &[0, 0, 0, 42]);
    assert_eq!(&block[48..52], &[0, 0, 0, 7]);
}

#[test]
fn tag_round_trip_csum_v3_layout() {
    let layout = layout_of(INCOMPAT_CSUM_V3 | INCOMPAT_64BIT);
    let seed = linux_seed();
    let tid = Tid::new(5);
    let mut d0 = [0; BLOCK_SIZE];
    d0[..4].copy_from_slice(b"DAT0");
    let mut d1 = [0; BLOCK_SIZE];
    d1[..4].copy_from_slice(b"DAT1");

    let mut writer = layout.writer([0; BLOCK_SIZE], tid, Some(seed)).unwrap();
    writer.put(0x0102_0304, 0, &d0).unwrap();
    writer
        .put((3 << 32) | 9, TAG_FLAG_SAME_UUID | TAG_FLAG_LAST_TAG, &d1)
        .unwrap();
    let block = writer.finish();

    let decoded = tags_of(&layout, &block);
    assert_eq!(decoded.len(), 2);
    assert_eq!(decoded[0].blocknr(), 0x0102_0304);
    assert_eq!(decoded[1].blocknr(), (3 << 32) | 9);
    assert!(decoded[1].is_last());
    assert!(decoded[0].verify_data_csum(seed, tid, &d0));
    assert!(!decoded[0].verify_data_csum(seed, tid, &d1));
    assert!(decoded[1].verify_data_csum(seed, tid, &d1));
    assert!(seed.verify_block_tail(&block));

    assert_eq!(&block[12..16], &[0x01, 0x02, 0x03, 0x04]);
    assert_eq!(&block[16..24], &[0; 8]);
    assert_eq!(
        &block[24..28],
        &seed.data_block_csum(tid, &d0).to_be_bytes()
    );
    assert_eq!(&block[44..48], &[0, 0, 0, 9]);
    assert_eq!(&block[48..52], &[0, 0, 0, 0x0A]);
    assert_eq!(&block[52..56], &[0, 0, 0, 3]);
}

#[test]
fn csum_v3_without_64bit_ignores_stray_blocknr_high() {
    let layout = layout_of(INCOMPAT_CSUM_V3);
    let mut block = [0u8; BLOCK_SIZE];
    let at = layout.first_tag_offset();
    block[at..at + 4].copy_from_slice(&0x1234u32.to_be_bytes());
    let flags = u32::from(TAG_FLAG_SAME_UUID | TAG_FLAG_LAST_TAG);
    block[at + 4..at + 8].copy_from_slice(&flags.to_be_bytes());
    block[at + 8..at + 12].copy_from_slice(&0xDEAD_BEEFu32.to_be_bytes());

    let tag = layout.walk(&block).next().unwrap().unwrap();
    assert_eq!(tag.blocknr(), 0x1234);
    assert!(tag.is_last());
}

#[test]
fn tag_round_trip_csum_v2_quirk_strides() {
    let seed = linux_seed();
    let tid = Tid::new(3);
    let data = linux_data_block();
    for features in [INCOMPAT_CSUM_V2, INCOMPAT_CSUM_V2 | INCOMPAT_64BIT] {
        let layout = layout_of(features);
        let wide_ok = features & INCOMPAT_64BIT != 0;
        let second: u64 = if wide_ok { (5 << 32) | 6 } else { 0x600 };

        let mut writer = layout.writer([0; BLOCK_SIZE], tid, Some(seed)).unwrap();
        writer.put(0x500, 0, &data).unwrap();
        writer
            .put(second, TAG_FLAG_SAME_UUID | TAG_FLAG_LAST_TAG, &data)
            .unwrap();
        let block = writer.finish();

        let decoded = tags_of(&layout, &block);
        assert_eq!(decoded.len(), 2, "features {features:#x}");
        assert_eq!(decoded[0].blocknr(), 0x500);
        assert_eq!(decoded[1].blocknr(), second);
        assert!(decoded[1].is_last());
        assert!(decoded[0].verify_data_csum(seed, tid, &data));
        assert!(!decoded[0].verify_data_csum(seed, tid, &[0; BLOCK_SIZE]));
        assert!(seed.verify_block_tail(&block), "features {features:#x}");
    }
}

#[test]
fn tag_area_excludes_descriptor_tail() {
    let v3 = layout_of(INCOMPAT_CSUM_V3);
    let data = [0; BLOCK_SIZE];
    let mut writer = v3
        .writer([0; BLOCK_SIZE], Tid::new(1), Some(linux_seed()))
        .unwrap();
    writer.offset = BLOCK_SIZE - 16;
    let err = writer
        .put(0x1, TAG_FLAG_SAME_UUID | TAG_FLAG_LAST_TAG, &data)
        .unwrap_err();
    assert_eq!(err, Error::TagAreaFull);
    assert_eq!(err.error(), Errno::ENOSPC);
    writer.offset = BLOCK_SIZE - 4 - 16;
    writer
        .put(0x1, TAG_FLAG_SAME_UUID | TAG_FLAG_LAST_TAG, &data)
        .unwrap();

    let zeroed = [0u8; BLOCK_SIZE];
    let count_ok = |layout: &TagLayout| {
        let mut oks = 0usize;
        let mut errs = 0usize;
        let mut walk = layout.walk(&zeroed);
        while let Some(tag) = walk.next() {
            match tag {
                Ok(_) => oks += 1,
                Err(e) => {
                    assert_eq!(e, Error::TagPastArea);
                    errs += 1;
                }
            }
        }
        assert_eq!(errs, 1);
        oks
    };
    assert_eq!(count_ok(&layout_of(0)), 170);
    assert_eq!(count_ok(&v3), 128);
}

#[test]
fn tag_with_wide_flag_word_is_malformed() {
    let layout = layout_of(INCOMPAT_CSUM_V3);
    let mut block = [0u8; BLOCK_SIZE];
    let at = layout.first_tag_offset();
    block[at + 4] = 1;
    assert_eq!(
        layout.decode_tag(&block, at).err(),
        Some(Error::MalformedTagFlags)
    );
}

const LINUX_UUID: [u8; 16] = [
    0x60, 0xDA, 0xC8, 0xE1, 0x3E, 0x5E, 0x42, 0x3F, 0xA7, 0x28, 0xBF, 0x37, 0xE9, 0x1C, 0x87, 0xBB,
];
const LINUX_SEED: u32 = 0x4A61_B9AA;
const LINUX_SB_CSUM: u32 = 0x9FD2_29EE;
const LINUX_TID: u32 = 2;
const LINUX_TAG0_CSUM: u32 = 0x1A0C_8FB6;
const LINUX_TAG1_CSUM: u32 = 0x5C00_D228;
const LINUX_DESC_TAIL_CSUM: u32 = 0xE10F_C75F;
const LINUX_COMMIT_CSUM: u32 = 0x0850_86F5;

fn linux_seed() -> JournalCsumSeed {
    JournalCsumSeed::derive(&LINUX_UUID)
}

fn linux_journal_superblock() -> RawJournalSuperblock {
    let mut raw = valid_raw(4096, 1, LINUX_TID, 1);
    raw.set_word(S_FEATURE_INCOMPAT, INCOMPAT_64BIT | INCOMPAT_CSUM_V3);
    raw.bytes[S_UUID..S_UUID + 16].copy_from_slice(&LINUX_UUID);
    raw.bytes[S_CHECKSUM_TYPE] = JBD2_CRC32C_CHKSUM;
    raw.set_word(S_CHECKSUM, LINUX_SB_CSUM);
    raw
}

fn put_words(block: &mut [u8; BLOCK_SIZE], at: usize, words: &[u32]) {
    for (i, word) in words.iter().enumerate() {
        block[at + 4 * i..at + 4 * i + 4].copy_from_slice(&word.to_be_bytes());
    }
}

fn linux_descriptor_block() -> [u8; BLOCK_SIZE] {
    let mut block = [0u8; BLOCK_SIZE];
    put_words(&mut block, 0, &[JBD2_MAGIC, BLOCKTYPE_DESCRIPTOR, LINUX_TID]);
    put_words(&mut block, 12, &[37, 0, 0, LINUX_TAG0_CSUM]);
    let flags = u32::from(TAG_FLAG_SAME_UUID | TAG_FLAG_LAST_TAG);
    put_words(&mut block, 44, &[4133, flags, 0, LINUX_TAG1_CSUM]);
    put_words(
        &mut block,
        BLOCK_SIZE - DESCRIPTOR_TAIL_BYTES,
        &[LINUX_DESC_TAIL_CSUM],
    );
    block
}

fn linux_commit_block() -> [u8; BLOCK_SIZE] {
    let mut block = [0u8; BLOCK_SIZE];
    put_words(&mut block, 0, &[JBD2_MAGIC, BLOCKTYPE_COMMIT, LINUX_TID]);
    put_words(&mut block, 16, &[LINUX_COMMIT_CSUM]);
    block[48..56].copy_from_slice(&1_783_157_811u64.to_be_bytes());
    put_words(&mut block, 56, &[790_793_834]);
    block
}

fn linux_data_block() -> [u8; BLOCK_SIZE] {
    let segments: &[(usize, &[u8])] = &[
        (0, &[0x02]),
        (4, &[0x0C, 0x00, 0x01, 0x02, 0x2E]),
        (12, &[0x02]),
        (16, &[0x0C, 0x00, 0x02, 0x02, 0x2E, 0x2E]),
        (24, &[0x0B]),
        (28, b"\xDC\x0F\x0A\x02lost+found"),
        (4088, &[0x0C]),
        (4091, &[0xDE, 0x4D, 0x83, 0xA0, 0x4D]),
    ];
    let mut block = [0u8; BLOCK_SIZE];
    for (offset, bytes) in segments {
        block[*offset..*offset + bytes.len()].copy_from_slice(bytes);
    }
    block
}

#[test]
fn csum_seed_matches_linux() {
    assert_eq!(linux_seed().0, LINUX_SEED);
}

#[test]
fn superblock_csum_matches_real_linux_bytes() {
    let raw = linux_journal_superblock();
    assert_eq!(raw.checksum(), LINUX_SB_CSUM);

    let sb = parsed(&raw);
    assert_eq!(sb.csum_seed().unwrap().0, LINUX_SEED);
    assert_eq!(sb.sequence(), Tid::new(LINUX_TID));

    let mut corrupt = copy(&raw);
    corrupt.bytes[S_UUID + 3] ^= 0x10;
    assert_ne!(corrupt.checksum(), LINUX_SB_CSUM);
    assert_eq!(refusal(&corrupt).error(), Errno::EUCLEAN);
}

#[test]
fn descriptor_tail_csum_matches_real_linux_bytes() {
    let block = linux_descriptor_block();
    let seed = linux_seed();
    assert_eq!(seed.block_tail_csum(&block), LINUX_DESC_TAIL_CSUM);
    assert!(seed.verify_block_tail(&block));

    let mut corrupt = block;
    corrupt[100] ^= 0x40;
    assert!(!seed.verify_block_tail(&corrupt));
}

#[test]
fn commit_block_csum_matches_real_linux_bytes() {
    let block = linux_commit_block();
    let seed = linux_seed();
    assert_eq!(seed.commit_block_csum(&block), LINUX_COMMIT_CSUM);
    assert!(seed.verify_commit_block(&block));

    let mut corrupt = block;
    corrupt[50] ^= 0x01;
    assert!(!seed.verify_commit_block(&corrupt));
}

#[test]
fn tag3_data_csum_matches_real_linux_bytes() {
    let layout = layout_of(INCOMPAT_64BIT | INCOMPAT_CSUM_V3);
    let descriptor = linux_descriptor_block();
    let tags = tags_of(&layout, &descriptor);
    assert_eq!(tags.len(), 2);
    assert_eq!(tags[0].blocknr(), 37);
    assert_eq!(tags[1].blocknr(), 4133);
    assert!(matches!(tags[1].checksum, Some(TagChecksum::V3(c)) if c == LINUX_TAG1_CSUM));

    let seed = linux_seed();
    let data = linux_data_block();
    assert_eq!(
        seed.data_block_csum(Tid::new(LINUX_TID), &data),
        LINUX_TAG1_CSUM
    );
    assert!(tags[1].verify_data_csum(seed, Tid::new(LINUX_TID), &data));

    let mut corrupt = data;
    corrupt[77] ^= 0x01;
    assert!(!tags[1].verify_data_csum(seed, Tid::new(LINUX_TID), &corrupt));
    assert!(!tags[1].verify_data_csum(seed, Tid::new(LINUX_TID + 1), &data));
    assert!(!tags[0].verify_data_csum(seed, Tid::new(LINUX_TID), &data));
}

#[test]
fn tag_csum_v2_stores_low_16_bits() {
    let layout = layout_of(INCOMPAT_CSUM_V2);
    let seed = linux_seed();
    let tid = Tid::new(9);
    let data = linux_data_block();
    let csum32 = seed.data_block_csum(tid, &data);

    let mut writer = layout.writer([0; BLOCK_SIZE], tid, Some(seed)).unwrap();
    writer
        .put(0x321, TAG_FLAG_SAME_UUID | TAG_FLAG_LAST_TAG, &data)
        .unwrap();
    let mut descriptor = writer.finish();
    assert_eq!(&descriptor[16..18], &csum32.to_be_bytes()[2..]);
    let tag = layout.walk(&descriptor).next().unwrap().unwrap();
    assert!(tag.verify_data_csum(seed, tid, &data));

    let high = (csum32 >> 16).to_be_bytes();
    descriptor[16..18].copy_from_slice(&high[2..]);
    let tag = layout.walk(&descriptor).next().unwrap().unwrap();
    assert!(!tag.verify_data_csum(seed, tid, &data));
}

#[test]
fn tag_data_csum_covers_escaped_form() {
    let seed = linux_seed();
    let tid = Tid::new(5);
    let mut original = [0u8; BLOCK_SIZE];
    original[..4].copy_from_slice(&JBD2_MAGIC.to_be_bytes());
    original[4..8].copy_from_slice(b"REST");
    let mut logged = original;
    logged[..4].fill(0);

    let layout = layout_of(INCOMPAT_CSUM_V3);
    let mut writer = layout.writer([0; BLOCK_SIZE], tid, Some(seed)).unwrap();
    writer
        .put(
            0x700,
            TAG_FLAG_ESCAPE | TAG_FLAG_SAME_UUID | TAG_FLAG_LAST_TAG,
            &logged,
        )
        .unwrap();
    let descriptor = writer.finish();

    let tag = layout.walk(&descriptor).next().unwrap().unwrap();
    assert!(tag.is_escaped());
    assert!(tag.verify_data_csum(seed, tid, &logged));
    assert!(!tag.verify_data_csum(seed, tid, &original));
}

#[test]
fn tag_without_csum_layout_verifies_vacuously() {
    let layout = layout_of(INCOMPAT_64BIT);
    let mut writer = layout.writer([0; BLOCK_SIZE], Tid::new(1), None).unwrap();
    writer
        .put(
            0x42,
            TAG_FLAG_SAME_UUID | TAG_FLAG_LAST_TAG,
            &[0; BLOCK_SIZE],
        )
        .unwrap();
    let descriptor = writer.finish();
    let tag = layout.walk(&descriptor).next().unwrap().unwrap();
    assert!(tag.checksum.is_none());
    assert!(tag.verify_data_csum(linux_seed(), Tid::new(1), &linux_data_block()));
}

#[test]
fn write_side_reproduces_real_linux_csums() {
    let seed = linux_seed();
    let tid = Tid::new(LINUX_TID);

    let layout = layout_of(INCOMPAT_64BIT | INCOMPAT_CSUM_V3);
    let mut writer = layout.writer([0; BLOCK_SIZE], tid, Some(seed)).unwrap();
    writer
        .put(
            4133,
            TAG_FLAG_SAME_UUID | TAG_FLAG_LAST_TAG,
            &linux_data_block(),
        )
        .unwrap();
    let block = writer.finish();
    let tag = layout.walk(&block).next().unwrap().unwrap();
    assert!(matches!(tag.checksum, Some(TagChecksum::V3(c)) if c == LINUX_TAG1_CSUM));
    assert!(seed.verify_block_tail(&block));

    let mut raw = linux_journal_superblock();
    raw.set_word(S_CHECKSUM, 0);
    raw.stamp_checksum();
    assert_eq!(raw.word(S_CHECKSUM), LINUX_SB_CSUM);

    let mut commit = linux_commit_block();
    commit[COMMIT_CHKSUM_OFFSET..COMMIT_CHKSUM_OFFSET + 4].fill(0);
    seed.stamp_commit_block(&mut commit);
    assert_eq!(commit.as_slice(), linux_commit_block().as_slice());
}

#[test]
fn superblock_stamp_only_under_csum_features() {
    let mut raw = valid_raw(1024, 1, 1, 0);
    let before = raw.bytes;
    raw.stamp_checksum();
    assert_eq!(raw.bytes, before);
}

#[test]
fn header_parses_from_a_block() {
    let header = RawJournalHeader::parse(&linux_descriptor_block());
    assert_eq!(header.h_magic, JBD2_MAGIC);
    assert_eq!(header.h_blocktype, BLOCKTYPE_DESCRIPTOR);
    assert_eq!(header.h_sequence, LINUX_TID);
}

#[test]
fn tid_geq_wrapping() {
    assert!(Tid::new(1).geq(Tid::new(0)));
    assert!(Tid::new(5).geq(Tid::new(5)));
    assert!(!Tid::new(0).geq(Tid::new(1)));
    assert!(Tid::new(0).geq(Tid::new(u32::MAX)));
    assert!(!Tid::new(u32::MAX).geq(Tid::new(0)));
}

#[test]
fn tid_next_prev_wrap() {
    assert_eq!(Tid::new(1).next(), Tid::new(2));
    assert_eq!(Tid::new(2).prev(), Tid::new(1));
    assert_eq!(Tid::new(u32::MAX).next(), Tid::new(0));
    assert_eq!(Tid::new(0).prev(), Tid::new(u32::MAX));
    assert!(Tid::new(u32::MAX).next().geq(Tid::new(u32::MAX)));
}

#[test]
fn tags_with_any_flags_are_walked_back() {
    let seed = linux_seed();
    let features = [
        0,
        INCOMPAT_64BIT,
        INCOMPAT_CSUM_V2,
        INCOMPAT_CSUM_V2 | INCOMPAT_64BIT,
        INCOMPAT_CSUM_V3,
        INCOMPAT_CSUM_V3 | INCOMPAT_64BIT,
    ];
    let puts: [(u64, u16); 4] = [
        (7, TAG_FLAG_SAME_UUID | TAG_FLAG_ESCAPE),
        (0xFFFF_FFFF, 0),
        (9, 0x8010),
        (7, TAG_FLAG_LAST_TAG),
    ];
    for features in features {
        let layout = layout_of(features);
        let seed = if layout.has_csum() { Some(seed) } else { None };
        let tid = Tid::new(5);
        let mut writer = layout.writer([0; BLOCK_SIZE], tid, seed).unwrap();
        for (blocknr, flags) in puts {
            let data = [blocknr as u8; BLOCK_SIZE];
            writer.put(blocknr, flags, &data).unwrap();
        }
        let block = writer.finish();
        let mut walk = layout.walk(&block);
        for (blocknr, flags) in puts {
            let tag = walk.next().unwrap().unwrap();
            assert_eq!((tag.blocknr(), tag.flags()), (blocknr, flags));
            let data = [blocknr as u8; BLOCK_SIZE];
            assert!(tag.verify_data_csum(linux_seed(), tid, &data));
        }
        assert!(walk.next().is_none());
    }
}
