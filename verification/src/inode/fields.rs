//! What the fields of a stored inode are, byte by byte and value by value.

use vstd::prelude::*;

use crate::bytes::le32_at;
use crate::checksum::lemma_crc_detects_byte;
use crate::error::Error;
use crate::inode::desc::{
    device_of, inode_content, inode_fault, Dtime, FilePerm, InodeDesc, InodeSeed, InodeType,
};
use crate::inode::device::{
    device_block_round_trips, device_id_of, device_id_round_trips, device_words, major_of,
    minor_of, stored_device,
};
use crate::inode::raw::{
    checksum_fault, checksummable, covered, inode_csum, inode_image, inode_image_is_faithful,
    word_byte, word_of, InodeCsumSeed, RawInode,
};
use crate::inode::symlink::area_bytes;
use crate::inode::time::{stored_time, time_round_trips, time_words, Duration};

verus! {

/// The value of two little-endian bytes from `at` on.
pub open spec fn half_at(s: Seq<u8>, at: int) -> int {
    s[at] + s[at + 1] * 0x100
}

proof fn lemma_word_in_image(words: Seq<u32>, tail: Seq<u8>, k: int)
    requires
        words.len() == 40,
        0 <= k < 40,
    ensures
        le32_at(inode_image(words, tail), 4 * k) == words[k],
        half_at(inode_image(words, tail), 4 * k) == words[k] % 0x1_0000,
        half_at(inode_image(words, tail), 4 * k + 2) == words[k] / 0x1_0000,
{
    let image = inode_image(words, tail);
    let w = words[k];
    assert(image[4 * k] == word_byte(w, 0));
    assert((4 * k + 1) / 4 == k && (4 * k + 1) % 4 == 1);
    assert((4 * k + 2) / 4 == k && (4 * k + 2) % 4 == 2);
    assert((4 * k + 3) / 4 == k && (4 * k + 3) % 4 == 3);
    assert(image[4 * k + 1] == word_byte(w, 1));
    assert(image[4 * k + 2] == word_byte(w, 2));
    assert(image[4 * k + 3] == word_byte(w, 3));
}

proof fn lemma_halves_of(low: u16, high: u16)
    ensures
        word_of(low, high) % 0x1_0000 == low,
        word_of(low, high) / 0x1_0000 == high,
{
}

proof fn lemma_places_low(raw: RawInode)
    ensures
        half_at(raw.image(), 0) == raw.mode,
        half_at(raw.image(), 2) == raw.uid,
        le32_at(raw.image(), 4) == raw.size_lo,
        le32_at(raw.image(), 8) == raw.atime,
        le32_at(raw.image(), 12) == raw.ctime,
        le32_at(raw.image(), 16) == raw.mtime,
        le32_at(raw.image(), 20) == raw.dtime,
        half_at(raw.image(), 24) == raw.gid,
        half_at(raw.image(), 26) == raw.link_count,
{
    let words = raw.words();
    assert(words[0] == word_of(raw.mode, raw.uid));
    lemma_word_in_image(words, raw.tail@, 0);
    lemma_halves_of(raw.mode, raw.uid);
    assert(words[1] == raw.size_lo);
    lemma_word_in_image(words, raw.tail@, 1);
    assert(words[2] == raw.atime);
    lemma_word_in_image(words, raw.tail@, 2);
    assert(words[3] == raw.ctime);
    lemma_word_in_image(words, raw.tail@, 3);
    assert(words[4] == raw.mtime);
    lemma_word_in_image(words, raw.tail@, 4);
    assert(words[5] == raw.dtime);
    lemma_word_in_image(words, raw.tail@, 5);
    assert(words[6] == word_of(raw.gid, raw.link_count));
    lemma_word_in_image(words, raw.tail@, 6);
    lemma_halves_of(raw.gid, raw.link_count);
}

proof fn lemma_places_mid(raw: RawInode)
    ensures
        le32_at(raw.image(), 28) == raw.sector_count,
        le32_at(raw.image(), 32) == raw.flags,
        le32_at(raw.image(), 36) == raw.osd1,
        le32_at(raw.image(), 100) == raw.generation,
        le32_at(raw.image(), 104) == raw.file_acl_lo,
        le32_at(raw.image(), 108) == raw.size_high,
        le32_at(raw.image(), 112) == raw.obso_faddr,
{
    let words = raw.words();
    assert(words[7] == raw.sector_count);
    lemma_word_in_image(words, raw.tail@, 7);
    assert(words[8] == raw.flags);
    lemma_word_in_image(words, raw.tail@, 8);
    assert(words[9] == raw.osd1);
    lemma_word_in_image(words, raw.tail@, 9);
    assert(words[25] == raw.generation);
    lemma_word_in_image(words, raw.tail@, 25);
    assert(words[26] == raw.file_acl_lo);
    lemma_word_in_image(words, raw.tail@, 26);
    assert(words[27] == raw.size_high);
    lemma_word_in_image(words, raw.tail@, 27);
    assert(words[28] == raw.obso_faddr);
    lemma_word_in_image(words, raw.tail@, 28);
}

proof fn lemma_places_halves(raw: RawInode)
    ensures
        half_at(raw.image(), 116) == raw.blocks_high,
        half_at(raw.image(), 118) == raw.file_acl_high,
        half_at(raw.image(), 120) == raw.uid_high,
        half_at(raw.image(), 122) == raw.gid_high,
        half_at(raw.image(), 124) == raw.checksum_lo,
        half_at(raw.image(), 126) == raw.osd2_reserved,
        half_at(raw.image(), 128) == raw.extra_isize,
        half_at(raw.image(), 130) == raw.checksum_hi,
{
    let words = raw.words();
    assert(words[29] == word_of(raw.blocks_high, raw.file_acl_high));
    lemma_word_in_image(words, raw.tail@, 29);
    lemma_halves_of(raw.blocks_high, raw.file_acl_high);
    assert(words[30] == word_of(raw.uid_high, raw.gid_high));
    lemma_word_in_image(words, raw.tail@, 30);
    lemma_halves_of(raw.uid_high, raw.gid_high);
    assert(words[31] == word_of(raw.checksum_lo, raw.osd2_reserved));
    lemma_word_in_image(words, raw.tail@, 31);
    lemma_halves_of(raw.checksum_lo, raw.osd2_reserved);
    assert(words[32] == word_of(raw.extra_isize, raw.checksum_hi));
    lemma_word_in_image(words, raw.tail@, 32);
    lemma_halves_of(raw.extra_isize, raw.checksum_hi);
}

proof fn lemma_places_high(raw: RawInode)
    ensures
        le32_at(raw.image(), 132) == raw.ctime_extra,
        le32_at(raw.image(), 136) == raw.mtime_extra,
        le32_at(raw.image(), 140) == raw.atime_extra,
        le32_at(raw.image(), 144) == raw.crtime,
        le32_at(raw.image(), 148) == raw.crtime_extra,
        le32_at(raw.image(), 152) == raw.version_hi,
        le32_at(raw.image(), 156) == raw.projid,
{
    let words = raw.words();
    assert(words[33] == raw.ctime_extra);
    lemma_word_in_image(words, raw.tail@, 33);
    assert(words[34] == raw.mtime_extra);
    lemma_word_in_image(words, raw.tail@, 34);
    assert(words[35] == raw.atime_extra);
    lemma_word_in_image(words, raw.tail@, 35);
    assert(words[36] == raw.crtime);
    lemma_word_in_image(words, raw.tail@, 36);
    assert(words[37] == raw.crtime_extra);
    lemma_word_in_image(words, raw.tail@, 37);
    assert(words[38] == raw.version_hi);
    lemma_word_in_image(words, raw.tail@, 38);
    assert(words[39] == raw.projid);
    lemma_word_in_image(words, raw.tail@, 39);
}

/// Where each field of an inode lies on the disk, counted in bytes. All are
/// little-endian.
pub proof fn inode_fields_have_their_places(raw: RawInode, i: int)
    requires
        0 <= i < 15,
    ensures
        raw.image().len() == 256,
        half_at(raw.image(), 0) == raw.mode,
        half_at(raw.image(), 2) == raw.uid,
        le32_at(raw.image(), 4) == raw.size_lo,
        le32_at(raw.image(), 8) == raw.atime,
        le32_at(raw.image(), 12) == raw.ctime,
        le32_at(raw.image(), 16) == raw.mtime,
        le32_at(raw.image(), 20) == raw.dtime,
        half_at(raw.image(), 24) == raw.gid,
        half_at(raw.image(), 26) == raw.link_count,
        le32_at(raw.image(), 28) == raw.sector_count,
        le32_at(raw.image(), 32) == raw.flags,
        le32_at(raw.image(), 36) == raw.osd1,
        le32_at(raw.image(), 40 + 4 * i) == raw.block[i],
        le32_at(raw.image(), 100) == raw.generation,
        le32_at(raw.image(), 104) == raw.file_acl_lo,
        le32_at(raw.image(), 108) == raw.size_high,
        le32_at(raw.image(), 112) == raw.obso_faddr,
        half_at(raw.image(), 116) == raw.blocks_high,
        half_at(raw.image(), 118) == raw.file_acl_high,
        half_at(raw.image(), 120) == raw.uid_high,
        half_at(raw.image(), 122) == raw.gid_high,
        half_at(raw.image(), 124) == raw.checksum_lo,
        half_at(raw.image(), 126) == raw.osd2_reserved,
        half_at(raw.image(), 128) == raw.extra_isize,
        half_at(raw.image(), 130) == raw.checksum_hi,
        le32_at(raw.image(), 132) == raw.ctime_extra,
        le32_at(raw.image(), 136) == raw.mtime_extra,
        le32_at(raw.image(), 140) == raw.atime_extra,
        le32_at(raw.image(), 144) == raw.crtime,
        le32_at(raw.image(), 148) == raw.crtime_extra,
        le32_at(raw.image(), 152) == raw.version_hi,
        le32_at(raw.image(), 156) == raw.projid,
        raw.image().skip(160) == raw.tail@,
{
    let words = raw.words();
    assert(raw.image().skip(160) =~= raw.tail@);
    assert(words[10 + i] == raw.block[i]);
    assert(4 * (10 + i) == 40 + 4 * i);
    lemma_word_in_image(words, raw.tail@, 10 + i);
    lemma_places_low(raw);
    lemma_places_mid(raw);
    lemma_places_halves(raw);
    lemma_places_high(raw);
}

/// The kind of file in a mode: its upper four bits.
pub open spec fn kind_of(type_: InodeType) -> int {
    match type_ {
        InodeType::NamedPipe => 1,
        InodeType::CharDevice => 2,
        InodeType::Dir => 4,
        InodeType::BlockDevice => 6,
        InodeType::File => 8,
        InodeType::SymLink => 10,
        InodeType::Socket => 12,
    }
}

/// What an inode says is read from its fields. Only a regular file has an upper
/// half of its size.
pub proof fn content_is_in_the_fields(raw: RawInode)
    requires
        inode_fault(raw) is None,
    ensures
        raw.mode == kind_of(inode_content(raw).type_) * 0x1000 + inode_content(raw).perm.0,
        inode_content(raw).perm.0 < 0x1000,
        inode_content(raw).uid == raw.uid + raw.uid_high * 0x1_0000,
        inode_content(raw).gid == raw.gid + raw.gid_high * 0x1_0000,
        inode_content(raw).type_ == InodeType::File ==> inode_content(raw).size == raw.size_lo
            + raw.size_high * 0x1_0000_0000,
        inode_content(raw).type_ != InodeType::File ==> inode_content(raw).size == raw.size_lo,
        inode_content(raw).link_count == raw.link_count,
        inode_content(raw).sector_count == raw.sector_count + raw.blocks_high * 0x1_0000_0000,
        inode_content(raw).flags.0 == raw.flags & 0x102C_10FF,
        inode_content(raw).file_acl == raw.file_acl_lo + raw.file_acl_high * 0x1_0000_0000,
        inode_content(raw).generation == raw.generation,
        inode_content(raw).block == raw.block,
        inode_content(raw).dtime == Dtime::Time(Duration { secs: raw.dtime as u64, nanos: 0 }),
        inode_content(raw).atime == stored_time(raw.atime, raw.atime_extra),
        inode_content(raw).ctime == stored_time(raw.ctime, raw.ctime_extra),
        inode_content(raw).mtime == stored_time(raw.mtime, raw.mtime_extra),
        inode_content(raw).crtime == stored_time(raw.crtime, raw.crtime_extra),
{
}

/// An inode is refused for one of four reasons, and for the first of them that
/// holds: it has no links, its mode names no kind of file, it is a symlink with a
/// target of a block or more, or its size is not one that an offset can have.
pub proof fn refused_inodes_are_told_apart(raw: RawInode, type_: InodeType)
    ensures
        raw.link_count == 0 <==> inode_fault(raw) == Some(Error::InodeNotInUse),
        raw.link_count > 0 && (raw.mode / 0x1000 == 0 || raw.mode / 0x1000 == 3 || raw.mode / 0x1000
            == 5 || raw.mode / 0x1000 == 7 || raw.mode / 0x1000 == 9 || raw.mode / 0x1000 == 11
            || raw.mode / 0x1000 >= 13) <==> inode_fault(raw) == Some(Error::InvalidMode),
        raw.link_count > 0 && raw.mode / 0x1000 == 10 && raw.size_lo >= 4096 <==> inode_fault(raw)
            == Some(Error::SymlinkTooLarge),
        raw.link_count > 0 && raw.mode / 0x1000 == 8 && raw.size_high >= 0x8000_0000
            <==> inode_fault(raw) == Some(Error::InodeTooLarge),
        inode_fault(raw) is None ==> inode_content(raw).link_count > 0 && inode_content(raw).size
            <= i64::MAX && (inode_content(raw).type_ == InodeType::SymLink ==> inode_content(
            raw,
        ).size < 4096),
        raw.link_count > 0 && raw.mode / 0x1000 == kind_of(type_) && type_ != InodeType::SymLink
            && (type_ == InodeType::File ==> raw.size_high < 0x8000_0000) ==> inode_fault(raw)
            is None,
        raw.link_count > 0 && raw.mode / 0x1000 == kind_of(type_) && type_ == InodeType::SymLink
            && raw.size_lo < 4096 ==> inode_fault(raw) is None,
{
}

/// What the content stores is in the fields, each value split over its halves.
/// Of a number of sectors or of an attribute block 48 bits are kept.
pub proof fn fields_hold_the_content(desc: InodeDesc, root: [u32; 15], raw: RawInode)
    requires
        desc.wf(),
        desc.stored_as(root, raw),
    ensures
        raw.mode == kind_of(desc.type_) * 0x1000 + desc.perm.0,
        raw.uid + raw.uid_high * 0x1_0000 == desc.uid,
        raw.gid + raw.gid_high * 0x1_0000 == desc.gid,
        desc.type_ == InodeType::File ==> raw.size_lo + raw.size_high * 0x1_0000_0000 == desc.size,
        desc.type_ != InodeType::File && desc.size <= u32::MAX ==> raw.size_lo == desc.size
            && raw.size_high == 0,
        desc.sector_count < 0x1_0000_0000_0000 ==> raw.sector_count + raw.blocks_high
            * 0x1_0000_0000 == desc.sector_count,
        desc.file_acl < 0x1_0000_0000_0000 ==> raw.file_acl_lo + raw.file_acl_high * 0x1_0000_0000
            == desc.file_acl,
        raw.link_count == desc.link_count,
        raw.flags == desc.flags.0,
        raw.generation == desc.generation,
        raw.block == root,
        raw.extra_isize == 32,
        (raw.atime, raw.atime_extra) == time_words(desc.atime),
        (raw.ctime, raw.ctime_extra) == time_words(desc.ctime),
        (raw.mtime, raw.mtime_extra) == time_words(desc.mtime),
        (raw.crtime, raw.crtime_extra) == time_words(desc.crtime),
        raw.dtime == 0 <==> (desc.dtime matches Dtime::Time(time) && time.secs == 0)
            || desc.dtime == Dtime::OrphanNext(None) || desc.dtime == Dtime::OrphanNext(Some(0)),
        desc.dtime matches Dtime::Time(time) ==> (time.secs <= u32::MAX ==> raw.dtime
            == time.secs) && (time.secs > u32::MAX ==> raw.dtime == u32::MAX),
        forall|next: u32| desc.dtime == Dtime::OrphanNext(Some(next)) ==> raw.dtime == next,
{
}

/// The first word of a stored time counts seconds of its own as a signed number,
/// and the low bits of the second word count rounds of it. A time before the
/// epoch is taken as the epoch.
pub proof fn stored_seconds_count(secs: u32, extra: u32)
    ensures
        extra / 4 < 1_000_000_000 ==> stored_time(secs, extra).nanos == extra / 4,
        extra / 4 < 1_000_000_000 && secs < 0x8000_0000 ==> stored_time(secs, extra).secs == secs
            + (extra % 4) * 0x1_0000_0000,
        extra / 4 < 1_000_000_000 && secs >= 0x8000_0000 && extra % 4 > 0 ==> stored_time(
            secs,
            extra,
        ).secs == secs + (extra % 4 - 1) * 0x1_0000_0000,
        extra / 4 < 1_000_000_000 && secs >= 0x8000_0000 && extra % 4 == 0 ==> stored_time(
            secs,
            extra,
        ).secs == 0,
        extra / 4 >= 1_000_000_000 ==> stored_time(secs, extra).nanos == extra / 4 - 1_000_000_000
            && stored_time(secs, extra).secs == stored_time(secs, extra % 4).secs + 1,
{
}

proof fn lemma_stored_again(d: Duration)
    requires
        d.wf(),
    ensures
        time_words(d).1 / 4 == d.nanos,
        d.secs <= 0x3_7FFF_FFFF ==> stored_time(time_words(d).0, time_words(d).1) == d,
        d.secs > 0x3_7FFF_FFFF ==> stored_time(time_words(d).0, time_words(d).1) == (Duration {
            secs: 0x3_7FFF_FFFF,
            nanos: d.nanos,
        }),
{
    time_round_trips(d);
}

/// A later time is never stored as an earlier one, and a time up to the year
/// 2038 is stored as old readers know it: as its seconds.
pub proof fn times_are_stored_in_order(a: Duration, b: Duration)
    requires
        a.wf(),
        b.wf(),
        a.secs < b.secs || a.secs == b.secs && a.nanos <= b.nanos,
    ensures
        a.secs < 0x8000_0000 ==> time_words(a) == (a.secs as u32, (a.nanos * 4) as u32),
        a.secs <= 0x3_7FFF_FFFF ==> time_words(a).0 == a.secs % 0x1_0000_0000,
        time_words(a).1 / 4 == a.nanos,
        stored_time(time_words(a).0, time_words(a).1).secs <= stored_time(
            time_words(b).0,
            time_words(b).1,
        ).secs,
        b.secs <= 0x3_7FFF_FFFF ==> stored_time(time_words(b).0, time_words(b).1) == b,
        b.secs > 0x3_7FFF_FFFF ==> stored_time(time_words(b).0, time_words(b).1) == (Duration {
            secs: 0x3_7FFF_FFFF,
            nanos: b.nanos,
        }),
{
    lemma_stored_again(a);
    lemma_stored_again(b);
}

/// Small device numbers make the id and the stored word of old: the major number
/// above a byte of minor number, in the first word. Larger ones are in the second
/// word, and the first is zero.
pub proof fn device_numbers_have_their_places(major: u32, minor: u32)
    ensures
        major < 0x1000 && minor < 0x100 ==> device_id_of(major, minor) == major * 0x100 + minor,
        major_of(device_id_of(major, minor)) == major,
        minor_of(device_id_of(major, minor)) == minor,
        major < 256 && minor < 256 ==> device_words(device_id_of(major, minor))[0] == major * 256
            + minor && device_words(device_id_of(major, minor))[1] == 0,
        major >= 256 || minor >= 256 ==> device_words(device_id_of(major, minor))[0] == 0,
        (major >= 256 || minor >= 256) && major < 0x1000 && minor < 0x10_0000 ==> device_words(
            device_id_of(major, minor),
        )[1] == minor % 0x100 + major * 0x100 + minor / 0x100 * 0x10_0000,
        forall|i: int|
            2 <= i < 15 ==> #[trigger] device_words(device_id_of(major, minor))[i] == 0,
{
    device_id_round_trips(major, minor);
    if (major >= 256 || minor >= 256) && major < 0x1000 && minor < 0x10_0000 {
        assert((minor & 0xFF) | (major << 8) | ((minor & !0xFFu32) << 12) == minor % 0x100 + major
            * 0x100 + minor / 0x100 * 0x10_0000) by (bit_vector)
            requires
                major < 0x1000,
                minor < 0x10_0000,
        ;
    }
}

/// Only device inodes name a device: the one in their block area.
pub proof fn only_devices_name_devices(desc: InodeDesc)
    ensures
        device_of(desc) is Some <==> desc.type_ == InodeType::CharDevice || desc.type_
            == InodeType::BlockDevice,
        device_of(desc) matches Some(id) ==> (desc.block[0] != 0 ==> id == device_id_of(
            (desc.block[0] / 0x100 % 0x100) as u32,
            (desc.block[0] % 0x100) as u32,
        )) && id == stored_device(desc.block@),
{
}

/// The block area lies behind the first 40 bytes of an inode, and the target of a
/// link in it begins there.
pub proof fn block_area_is_in_the_image(raw: RawInode)
    ensures
        raw.image().subrange(40, 100) == area_bytes(raw.block@),
{
    let image = raw.image();
    assert forall|i: int| 0 <= i < 60 implies image.subrange(40, 100)[i] == area_bytes(
        raw.block@,
    )[i] by {
        assert((40 + i) / 4 == 10 + i / 4 && (40 + i) % 4 == i % 4);
        assert(raw.words()[10 + i / 4] == raw.block@[i / 4]);
    }
    assert(image.subrange(40, 100) =~= area_bytes(raw.block@));
}

/// Reading an inode from its bytes and making its bytes again gives the bytes, and
/// the other way round.
pub proof fn inode_bytes_round_trip(
    bytes: [u8; 256],
    raw: RawInode,
    made: [u8; 256],
    again: RawInode,
)
    requires
        call_ensures(RawInode::from_bytes, (&bytes,), raw),
        call_ensures(RawInode::as_bytes, (&raw,), made),
        call_ensures(RawInode::from_bytes, (&made,), again),
    ensures
        made@ == bytes@,
        half_at(bytes@, 0) == raw.mode,
        half_at(bytes@, 26) == raw.link_count,
        le32_at(bytes@, 4) == raw.size_lo,
        again.words() == raw.words(),
        again.tail@ == raw.tail@,
{
    inode_fields_have_their_places(raw, 0);
    inode_image_is_faithful(raw, again);
}

/// A new inode is empty, alive and of the given kind, and all its times are now.
/// One that is to hold extents has the flag for them and an empty tree: the number
/// of the tree's format, no entries of four, and no depth. The inode of a device
/// names the device.
pub proof fn new_content_is_empty(
    type_: InodeType,
    perm: FilePerm,
    uid: u32,
    gid: u32,
    link_count: u16,
    generation: u32,
    now: Duration,
    seed: InodeSeed,
    desc: InodeDesc,
    major: u32,
    minor: u32,
)
    requires
        perm.wf(),
        now.wf(),
        call_ensures(
            InodeDesc::new,
            (type_, perm, uid, gid, link_count, generation, now, seed),
            desc,
        ),
    ensures
        desc.type_ == type_,
        desc.perm == perm,
        desc.uid == uid,
        desc.gid == gid,
        desc.link_count == link_count,
        desc.generation == generation,
        desc.size == 0,
        desc.sector_count == 0,
        desc.file_acl == 0,
        desc.atime == now && desc.ctime == now && desc.mtime == now && desc.crtime == now,
        desc.dtime == Dtime::Time(Duration { secs: 0, nanos: 0 }),
        desc.flags.0 == 0x8_0000 <==> seed == InodeSeed::ExtentRoot,
        desc.flags.0 == 0 <==> seed != InodeSeed::ExtentRoot,
        seed == InodeSeed::ExtentRoot ==> desc.block[0] % 0x1_0000 == 0xF30A && desc.block[0]
            / 0x1_0000 == 0 && desc.block[1] == 4 && forall|i: int|
            2 <= i < 15 ==> desc.block[i] == 0,
        seed == InodeSeed::Nothing ==> forall|i: int| 0 <= i < 15 ==> desc.block[i] == 0,
        seed == InodeSeed::Device(device_id_of(major, minor)) && major < 0x1000 && minor
            < 0x10_0000 && (type_ == InodeType::CharDevice || type_ == InodeType::BlockDevice)
            ==> device_of(desc) == Some(device_id_of(major, minor)),
{
    if major < 0x1000 && minor < 0x10_0000 {
        device_block_round_trips(major, minor);
    }
}

/// The checksum of an inode covers each byte but its own: a change of one byte
/// changes it. It reaches as far as the inode does.
pub proof fn inode_csum_detects_byte(
    raw: RawInode,
    other: RawInode,
    seed: InodeCsumSeed,
    inode_size: usize,
    at: int,
)
    requires
        checksummable(inode_size),
        0 <= at < inode_size,
        at != 124 && at != 125 && (inode_size > 128 ==> at != 130 && at != 131),
        other.image() == raw.image().update(at, other.image()[at]),
        other.image()[at] != raw.image()[at],
    ensures
        inode_csum(raw, seed, inode_size) != inode_csum(other, seed, inode_size),
{
    let a = covered(raw.image(), inode_size);
    let b = covered(other.image(), inode_size);
    assert(raw.image().len() == 256);
    assert(b =~= a.update(at, other.image()[at]));
    lemma_crc_detects_byte(seed.0, a, at, other.image()[at]);
}

/// A sound checksum is one of both halves, but only of the low one where the
/// inode has the basic size. The checksum reads nothing behind the inode.
pub proof fn both_checksum_halves_count(
    raw: RawInode,
    other: RawInode,
    seed: InodeCsumSeed,
    inode_size: usize,
)
    requires
        checksummable(inode_size),
        raw.image().take(inode_size as int) == other.image().take(inode_size as int),
    ensures
        inode_csum(raw, seed, inode_size) == inode_csum(other, seed, inode_size),
        checksum_fault(raw, seed, inode_size) is None && inode_size > 128 ==> raw.checksum_lo
            + raw.checksum_hi * 0x1_0000 == inode_csum(raw, seed, inode_size),
        checksum_fault(raw, seed, inode_size) is None && inode_size <= 128 ==> raw.checksum_lo
            == inode_csum(raw, seed, inode_size) % 0x1_0000,
        raw.checksum_lo == inode_csum(raw, seed, inode_size) % 0x1_0000 && (inode_size <= 128
            || raw.checksum_hi == inode_csum(raw, seed, inode_size) / 0x1_0000) ==> checksum_fault(
            raw,
            seed,
            inode_size,
        ) is None,
        checksum_fault(raw, seed, inode_size) == Some(Error::InodeChecksumLo) <==> raw.checksum_lo
            != inode_csum(raw, seed, inode_size) % 0x1_0000,
        checksum_fault(raw, seed, inode_size) == Some(Error::InodeChecksumHi) <==> raw.checksum_lo
            == inode_csum(raw, seed, inode_size) % 0x1_0000 && inode_size > 128 && raw.checksum_hi
            != inode_csum(raw, seed, inode_size) / 0x1_0000,
{
    assert(covered(raw.image(), inode_size) == covered(other.image(), inode_size));
}

/// A time is its seconds and nanoseconds together, however they are given.
pub proof fn times_add_up(secs: u64, nanos: u32, d: Duration)
    requires
        secs + 5 <= u64::MAX,
        call_ensures(Duration::new, (secs, nanos), d),
    ensures
        d.nanos < 1_000_000_000,
        d.secs * 1_000_000_000 + d.nanos == secs * 1_000_000_000 + nanos,
{
}

} // verus!
