//! The tag array of a descriptor block: its geometry under each set of
//! features, its writer and its reader.

use vstd::prelude::*;

use crate::bytes::{
    be16, be16_at, be16_bytes, be32, be32_at, be32_bytes, read_be16, read_be32, splice, write_bytes,
    BLOCK_SIZE,
};
use crate::error::Error;
use crate::journal::format::{
    data_csum, with_tail_csum, JournalCsumSeed, DESCRIPTOR_TAIL_BYTES, INCOMPAT_64BIT,
    INCOMPAT_CSUM_V2, INCOMPAT_CSUM_V3, JOURNAL_HEADER_SIZE, TAG_FLAG_ESCAPE, TAG_FLAG_LAST_TAG,
    TAG_FLAG_SAME_UUID,
};
use crate::journal::tid::Tid;

verus! {

/// Bytes of a tag without version 3 checksums, up to its high word.
pub const BLOCK_TAG_SIZE: usize = 8;

/// Bytes of a tag with version 3 checksums.
pub const BLOCK_TAG3_SIZE: usize = 16;

/// Bytes of the UUID behind a tag that does not reuse the previous one.
pub const TAG_UUID_BYTES: usize = 16;

/// The geometry of the tag array, as the journal's features select it.
#[derive(Clone, Copy, Debug, PartialEq, Eq, Structural)]
pub struct TagLayout {
    /// Bytes from one tag to the next, without a UUID between them.
    pub tag_bytes: usize,
    /// Whether a tag holds the high word of its block number.
    pub has_blocknr_high: bool,
    /// Whether tags are of the version 3 form.
    pub csum_v3: bool,
    /// Bytes kept for the checksum at the end of the block.
    pub descriptor_tail_bytes: usize,
}

/// The bytes that a value of the features `high`, `v2` and `v3` gives a tag.
pub open spec fn tag_bytes_of(high: bool, v2: bool, v3: bool) -> usize {
    if v3 {
        16
    } else if high && v2 {
        14
    } else if high {
        12
    } else if v2 {
        10
    } else {
        8
    }
}

impl TagLayout {
    /// The layout is one that some set of features selects.
    pub open spec fn wf(self) -> bool {
        &&& self.descriptor_tail_bytes == 0 || self.descriptor_tail_bytes == DESCRIPTOR_TAIL_BYTES
        &&& self.csum_v3 ==> self.descriptor_tail_bytes != 0
        &&& self.tag_bytes == tag_bytes_of(
            self.has_blocknr_high,
            self.descriptor_tail_bytes != 0,
            self.csum_v3,
        )
    }

    /// The layout that the incompatible features `features` select, where they
    /// do not contradict each other.
    pub open spec fn selected_by(features: u32) -> TagLayout {
        let v2 = features & INCOMPAT_CSUM_V2 != 0;
        let v3 = features & INCOMPAT_CSUM_V3 != 0;
        let high = features & INCOMPAT_64BIT != 0;
        TagLayout {
            tag_bytes: tag_bytes_of(high, v2, v3),
            has_blocknr_high: high,
            csum_v3: v3,
            descriptor_tail_bytes: if v2 || v3 {
                DESCRIPTOR_TAIL_BYTES
            } else {
                0
            },
        }
    }

    /// Where the tag area ends.
    pub open spec fn area_end(self) -> int {
        BLOCK_SIZE - self.descriptor_tail_bytes
    }

    /// The most tags that one descriptor can hold: the header, one UUID and
    /// the tags fit the tag area.
    pub open spec fn capacity(self) -> nat {
        ((self.area_end() - JOURNAL_HEADER_SIZE - TAG_UUID_BYTES) / (self.tag_bytes as int)) as nat
    }

    /// Whether tags and blocks carry checksums.
    pub open spec fn csum(self) -> bool {
        self.descriptor_tail_bytes != 0
    }

    /// Where the tag `i` of a descriptor stands, when only the first tag is
    /// followed by a UUID.
    pub open spec fn tag_offset(self, i: int) -> int {
        JOURNAL_HEADER_SIZE + i * self.tag_bytes + if i > 0 {
            TAG_UUID_BYTES as int
        } else {
            0
        }
    }

    /// The tag that the bytes of `descriptor` from `offset` on hold.
    pub open spec fn decoded(self, descriptor: Seq<u8>, offset: int) -> Result<
        DescriptorTag,
        Error,
    > {
        if self.csum_v3 {
            let flags = be32_at(descriptor, offset + 4);
            if flags > u16::MAX {
                Err(Error::MalformedTagFlags)
            } else {
                Ok(
                    DescriptorTag {
                        blocknr: joined_blocknr(
                            be32_at(descriptor, offset),
                            if self.has_blocknr_high {
                                be32_at(descriptor, offset + 8)
                            } else {
                                0
                            },
                        ),
                        flags: flags as u16,
                        checksum: Some(TagChecksum::V3(be32_at(descriptor, offset + 12))),
                    },
                )
            }
        } else {
            Ok(
                DescriptorTag {
                    blocknr: joined_blocknr(
                        be32_at(descriptor, offset),
                        if self.has_blocknr_high {
                            be32_at(descriptor, offset + 8)
                        } else {
                            0
                        },
                    ),
                    flags: be16_at(descriptor, offset + 6),
                    checksum: if self.csum() {
                        Some(TagChecksum::V2(be16_at(descriptor, offset + 4)))
                    } else {
                        None
                    },
                },
            )
        }
    }

    /// What a walk of the tags from `offset` on yields: the tags up to the one
    /// marked as the last, or up to the first that cannot be read, which
    /// yields an error.
    pub open spec fn walked(self, descriptor: Seq<u8>, offset: int) -> Seq<
        Result<DescriptorTag, Error>,
    >
        decreases self.area_end() + TAG_UUID_BYTES - offset,
        when self.tag_bytes > 0
    {
        if offset + self.tag_bytes > self.area_end() {
            seq![Err(Error::TagPastArea)]
        } else {
            match self.decoded(descriptor, offset) {
                Err(e) => seq![Err(e)],
                Ok(tag) => if tag.last() {
                    seq![Ok(tag)]
                } else {
                    seq![Ok(tag)] + self.walked(descriptor, offset + tag.stride(self))
                },
            }
        }
    }

    /// Selects the layout for a set of incompatible features. Version 2 and
    /// version 3 checksums contradict each other.
    pub fn from_features(feature_incompat: u32) -> (r: Result<Self, Error>)
        ensures
            r is Err <==> feature_incompat & INCOMPAT_CSUM_V2 != 0 && feature_incompat
                & INCOMPAT_CSUM_V3 != 0,
            r matches Err(e) ==> e == Error::BothCsumV2V3,
            r matches Ok(layout) ==> layout == Self::selected_by(feature_incompat) && layout.wf(),
    {
        let csum_v2 = feature_incompat & INCOMPAT_CSUM_V2 != 0;
        let csum_v3 = feature_incompat & INCOMPAT_CSUM_V3 != 0;
        if csum_v2 && csum_v3 {
            return Err(Error::BothCsumV2V3);
        }
        let has_blocknr_high = feature_incompat & INCOMPAT_64BIT != 0;
        let tag_bytes: usize = if csum_v3 {
            BLOCK_TAG3_SIZE
        } else {
            BLOCK_TAG_SIZE + (if has_blocknr_high {
                4
            } else {
                0
            }) + (if csum_v2 {
                2
            } else {
                0
            })
        };
        let descriptor_tail_bytes: usize = if csum_v2 || csum_v3 {
            DESCRIPTOR_TAIL_BYTES
        } else {
            0
        };
        Ok(TagLayout { tag_bytes, has_blocknr_high, csum_v3, descriptor_tail_bytes })
    }

    /// Where the first tag stands.
    pub fn first_tag_offset(&self) -> (r: usize)
        ensures
            r == JOURNAL_HEADER_SIZE,
            r == self.tag_offset(0),
    {
        JOURNAL_HEADER_SIZE
    }

    /// Where the tag area ends.
    pub fn tag_area_end(&self) -> (r: usize)
        requires
            self.wf(),
        ensures
            r == self.area_end(),
    {
        BLOCK_SIZE - self.descriptor_tail_bytes
    }

    /// The most tags that one descriptor can hold.
    pub fn tags_per_descriptor(&self) -> (r: usize)
        requires
            self.wf(),
        ensures
            r == self.capacity(),
            r > 0,
    {
        proof {
            lemma_capacity(*self, 0);
        }
        (self.tag_area_end() - self.first_tag_offset() - TAG_UUID_BYTES) / self.tag_bytes
    }

    /// Whether tags and blocks carry checksums.
    pub fn has_csum(&self) -> (r: bool)
        ensures
            r == self.csum(),
    {
        self.descriptor_tail_bytes != 0
    }

    /// Starts the tag array of a descriptor of the transaction `tid`. A layout
    /// with checksums needs the journal's seed, and one without takes none.
    pub fn writer(
        &self,
        block: [u8; BLOCK_SIZE],
        tid: Tid,
        seed: Option<JournalCsumSeed>,
    ) -> (r: Result<TagWriter, Error>)
        requires
            self.wf(),
        ensures
            r is Ok <==> (seed is Some <==> self.csum()),
            r matches Err(e) ==> e == Error::SeedMismatch,
            r matches Ok(w) ==> {
                &&& w.wf()
                &&& w.layout == *self
                &&& w.block == block
                &&& w.offset == self.tag_offset(0)
                &&& w.tid == tid
                &&& w.mode == csum_mode(*self, seed)
            },
    {
        let mode = match seed {
            None => if self.has_csum() {
                return Err(Error::SeedMismatch);
            } else {
                TagCsumMode::Plain
            },
            Some(seed) => if self.csum_v3 {
                TagCsumMode::V3(seed)
            } else if self.has_csum() {
                TagCsumMode::V2(seed)
            } else {
                return Err(Error::SeedMismatch);
            },
        };
        Ok(TagWriter { layout: *self, block, offset: self.first_tag_offset(), tid, mode })
    }

    /// Reads the tag at `offset`.
    pub fn decode_tag(&self, descriptor: &[u8; BLOCK_SIZE], offset: usize) -> (r: Result<
        DescriptorTag,
        Error,
    >)
        requires
            self.wf(),
            offset + self.tag_bytes <= self.area_end(),
        ensures
            r == self.decoded(descriptor@, offset as int),
    {
        let high: u32 = if self.has_blocknr_high {
            read_be32(descriptor, offset + BLOCK_TAG_SIZE)
        } else {
            0
        };
        let blocknr: u64 = join_blocknr(read_be32(descriptor, offset), high);
        if self.csum_v3 {
            let flags: u32 = read_be32(descriptor, offset + 4);
            if flags > 0xFFFF {
                return Err(Error::MalformedTagFlags);
            }
            let checksum = Some(TagChecksum::V3(read_be32(descriptor, offset + 12)));
            Ok(DescriptorTag { blocknr, flags: flags as u16, checksum })
        } else {
            let checksum = if self.has_csum() {
                Some(TagChecksum::V2(read_be16(descriptor, offset + 4)))
            } else {
                None
            };
            Ok(DescriptorTag { blocknr, flags: read_be16(descriptor, offset + 6), checksum })
        }
    }

    /// Starts a walk of the tags of a descriptor.
    pub fn walk<'a>(&self, descriptor: &'a [u8; BLOCK_SIZE]) -> (w: TagWalk<'a>)
        requires
            self.wf(),
        ensures
            w.layout == *self,
            w.descriptor == descriptor,
            w.cursor.wf(*self),
            w.cursor.rest(*self, descriptor@) == self.walked(descriptor@, self.tag_offset(0)),
    {
        TagWalk { layout: *self, descriptor, cursor: TagCursor::start() }
    }
}

/// The block number with the low word `low` and the high word `high`.
pub open spec fn joined_blocknr(low: u32, high: u32) -> u64 {
    (low + high * 0x1_0000_0000) as u64
}

/// The low word of a block number.
pub open spec fn blocknr_low(blocknr: u64) -> u32 {
    (blocknr % 0x1_0000_0000) as u32
}

/// The high word of a block number.
pub open spec fn blocknr_high(blocknr: u64) -> u32 {
    (blocknr / 0x1_0000_0000) as u32
}

/// A block number that is split is joined again.
pub proof fn blocknr_round_trips(blocknr: u64)
    ensures
        joined_blocknr(blocknr_low(blocknr), blocknr_high(blocknr)) == blocknr,
        blocknr_high(blocknr) == 0 <==> blocknr <= u32::MAX,
{
}

/// Splits a block number into its low and its high word.
pub fn split_blocknr(blocknr: u64) -> (r: (u32, u32))
    ensures
        r == (blocknr_low(blocknr), blocknr_high(blocknr)),
{
    ((blocknr % 0x1_0000_0000) as u32, (blocknr / 0x1_0000_0000) as u32)
}

/// Joins the low and the high word of a block number.
pub fn join_blocknr(low: u32, high: u32) -> (r: u64)
    ensures
        r == joined_blocknr(low, high),
{
    low as u64 + high as u64 * 0x1_0000_0000
}

/// How a descriptor is checksummed.
#[derive(Clone, Copy, Debug, PartialEq, Eq, Structural)]
pub enum TagCsumMode {
    /// No checksums.
    Plain,
    /// A tag holds the low half of its data block's checksum.
    V2(JournalCsumSeed),
    /// A tag holds the whole checksum of its data block.
    V3(JournalCsumSeed),
}

/// The mode of a layout and a seed that agree.
pub open spec fn csum_mode(layout: TagLayout, seed: Option<JournalCsumSeed>) -> TagCsumMode {
    match seed {
        None => TagCsumMode::Plain,
        Some(seed) => if layout.csum_v3 {
            TagCsumMode::V3(seed)
        } else {
            TagCsumMode::V2(seed)
        },
    }
}

/// The bytes of a tag for the block `blocknr`, which stands in the log as
/// `logged`.
pub open spec fn tag_image(
    layout: TagLayout,
    mode: TagCsumMode,
    tid: Tid,
    blocknr: u64,
    flags: u16,
    logged: Seq<u8>,
) -> Seq<u8> {
    let low = be32(blocknr_low(blocknr));
    let high = be32(blocknr_high(blocknr));
    match mode {
        TagCsumMode::V3(seed) => low + be32(flags as u32) + high + be32(
            data_csum(seed, tid, logged),
        ),
        TagCsumMode::V2(seed) => {
            let prefix = low + be16((data_csum(seed, tid, logged) % 0x1_0000) as u16) + be16(flags);
            if layout.has_blocknr_high {
                prefix + high
            } else {
                prefix
            }
        },
        TagCsumMode::Plain => {
            let prefix = low + be16(0) + be16(flags);
            if layout.has_blocknr_high {
                prefix + high
            } else {
                prefix
            }
        },
    }
}

/// A descriptor block once its tags are written.
pub open spec fn sealed(mode: TagCsumMode, block: Seq<u8>) -> Seq<u8> {
    match mode {
        TagCsumMode::Plain => block,
        TagCsumMode::V2(seed) => with_tail_csum(seed, block),
        TagCsumMode::V3(seed) => with_tail_csum(seed, block),
    }
}

/// Bytes from a tag with these flags to the next one.
pub open spec fn tag_stride(layout: TagLayout, flags: u16) -> int {
    layout.tag_bytes + if flags & TAG_FLAG_SAME_UUID == 0 {
        TAG_UUID_BYTES as int
    } else {
        0
    }
}

/// A tag to be put: its block, its flags, and the block as it stands in the log.
pub struct TagPut {
    pub blocknr: u64,
    pub flags: u16,
    pub logged: Seq<u8>,
}

/// The writer `before` has put a tag and is `after` now: the tag fits, its image
/// stands where the writer stood, and the writer stands one stride on.
pub open spec fn put_done(before: TagWriter, put: TagPut, after: TagWriter) -> bool {
    &&& put.blocknr <= u32::MAX || before.layout.has_blocknr_high
    &&& before.offset + tag_stride(before.layout, put.flags) <= before.layout.area_end()
    &&& after.block@ == splice(
        before.block@,
        before.offset as int,
        tag_image(before.layout, before.mode, before.tid, put.blocknr, put.flags, put.logged),
    )
    &&& after.offset == before.offset + tag_stride(before.layout, put.flags)
    &&& after.layout == before.layout
    &&& after.tid == before.tid
    &&& after.mode == before.mode
}

/// Writes the tag array of one descriptor block. The block comes out by
/// [`TagWriter::finish`] alone, which seals it.
pub struct TagWriter {
    pub layout: TagLayout,
    pub block: [u8; BLOCK_SIZE],
    pub offset: usize,
    pub tid: Tid,
    pub mode: TagCsumMode,
}

impl TagWriter {
    /// The mode is one of the layout's, and the cursor is in the tag area.
    pub open spec fn wf(self) -> bool {
        &&& self.layout.wf()
        &&& JOURNAL_HEADER_SIZE <= self.offset <= self.layout.area_end()
        &&& match self.mode {
            TagCsumMode::Plain => !self.layout.csum(),
            TagCsumMode::V2(_) => self.layout.csum() && !self.layout.csum_v3,
            TagCsumMode::V3(_) => self.layout.csum_v3,
        }
    }

    /// Writes one tag and moves past it, and past its UUID, which stays zero.
    pub fn put(&mut self, blocknr: u64, flags: u16, logged_block: &[u8; BLOCK_SIZE]) -> (r: Result<
        (),
        Error,
    >)
        requires
            old(self).wf(),
        ensures
            final(self).wf(),
            r == (if blocknr > u32::MAX && !old(self).layout.has_blocknr_high {
                Err::<(), Error>(Error::BlockTooWide)
            } else if old(self).offset + tag_stride(old(self).layout, flags)
                > old(self).layout.area_end() {
                Err(Error::TagAreaFull)
            } else {
                Ok(())
            }),
            r is Err ==> *final(self) == *old(self),
            r is Ok ==> put_done(
                *old(self),
                TagPut { blocknr, flags, logged: logged_block@ },
                *final(self),
            ),
    {
        let (low, high) = split_blocknr(blocknr);
        if high != 0 && !self.layout.has_blocknr_high {
            return Err(Error::BlockTooWide);
        }
        let offset: usize = self.offset;
        let mut end: usize = offset + self.layout.tag_bytes;
        if flags & TAG_FLAG_SAME_UUID == 0 {
            end += TAG_UUID_BYTES;
        }
        if end > self.layout.tag_area_end() {
            return Err(Error::TagAreaFull);
        }
        match self.mode {
            TagCsumMode::V3(seed) => {
                let csum: u32 = seed.data_block_csum(self.tid, logged_block);
                write_bytes(&mut self.block, offset, &be32_bytes(low));
                write_bytes(&mut self.block, offset + 4, &be32_bytes(flags as u32));
                write_bytes(&mut self.block, offset + 8, &be32_bytes(high));
                write_bytes(&mut self.block, offset + 12, &be32_bytes(csum));
            },
            TagCsumMode::V2(seed) => {
                let csum: u32 = seed.data_block_csum(self.tid, logged_block);
                self.put_prefix_tag(offset, low, high, (csum % 0x1_0000) as u16, flags);
            },
            TagCsumMode::Plain => {
                self.put_prefix_tag(offset, low, high, 0, flags);
            },
        }
        self.offset = end;
        assert(self.block@ =~= splice(
            old(self).block@,
            offset as int,
            tag_image(self.layout, self.mode, self.tid, blocknr, flags, logged_block@),
        ));
        Ok(())
    }

    /// Writes a tag that is not of the version 3 form.
    fn put_prefix_tag(&mut self, offset: usize, low: u32, high: u32, t_checksum: u16, flags: u16)
        requires
            old(self).layout.wf(),
            !old(self).layout.csum_v3,
            offset + old(self).layout.tag_bytes <= BLOCK_SIZE,
        ensures
            final(self).block@ == splice(
                old(self).block@,
                offset as int,
                if old(self).layout.has_blocknr_high {
                    be32(low) + be16(t_checksum) + be16(flags) + be32(high)
                } else {
                    be32(low) + be16(t_checksum) + be16(flags)
                },
            ),
            final(self).layout == old(self).layout,
            final(self).offset == old(self).offset,
            final(self).tid == old(self).tid,
            final(self).mode == old(self).mode,
    {
        write_bytes(&mut self.block, offset, &be32_bytes(low));
        write_bytes(&mut self.block, offset + 4, &be16_bytes(t_checksum));
        write_bytes(&mut self.block, offset + 6, &be16_bytes(flags));
        assert(self.block@ =~= splice(
            old(self).block@,
            offset as int,
            be32(low) + be16(t_checksum) + be16(flags),
        ));
        if self.layout.has_blocknr_high {
            write_bytes(&mut self.block, offset + BLOCK_TAG_SIZE, &be32_bytes(high));
            assert(self.block@ =~= splice(
                old(self).block@,
                offset as int,
                be32(low) + be16(t_checksum) + be16(flags) + be32(high),
            ));
        }
    }

    /// Seals the descriptor and gives it out.
    pub fn finish(self) -> (block: [u8; BLOCK_SIZE])
        ensures
            block@ == sealed(self.mode, self.block@),
    {
        let mut block = self.block;
        match self.mode {
            TagCsumMode::Plain => {},
            TagCsumMode::V2(seed) => seed.stamp_block_tail(&mut block),
            TagCsumMode::V3(seed) => seed.stamp_block_tail(&mut block),
        }
        block
    }
}

/// The checksum that a tag holds of its data block.
#[derive(Clone, Copy, Debug, PartialEq, Eq, Structural)]
pub enum TagChecksum {
    /// The low half.
    V2(u16),
    /// The whole.
    V3(u32),
}

/// One tag of a descriptor.
#[derive(Clone, Copy, Debug, PartialEq, Eq, Structural)]
pub struct DescriptorTag {
    /// The home block.
    pub blocknr: u64,
    /// The tag's flags.
    pub flags: u16,
    /// The checksum of the data block, where the layout has one.
    pub checksum: Option<TagChecksum>,
}

impl DescriptorTag {
    /// Whether the logged block was escaped.
    pub open spec fn escaped(self) -> bool {
        self.flags & TAG_FLAG_ESCAPE != 0
    }

    /// Whether this is the last tag.
    pub open spec fn last(self) -> bool {
        self.flags & TAG_FLAG_LAST_TAG != 0
    }

    /// Bytes from this tag to the next one.
    pub open spec fn stride(self, layout: TagLayout) -> int {
        tag_stride(layout, self.flags)
    }

    /// Whether `logged` has the checksum that the tag holds of it.
    pub open spec fn data_ok(self, seed: JournalCsumSeed, tid: Tid, logged: Seq<u8>) -> bool {
        match self.checksum {
            None => true,
            Some(TagChecksum::V2(low)) => low == data_csum(seed, tid, logged) % 0x1_0000,
            Some(TagChecksum::V3(full)) => full == data_csum(seed, tid, logged),
        }
    }

    /// The home block.
    pub fn blocknr(&self) -> (r: u64)
        ensures
            r == self.blocknr,
    {
        self.blocknr
    }

    /// The tag's flags.
    pub fn flags(&self) -> (r: u16)
        ensures
            r == self.flags,
    {
        self.flags
    }

    /// Whether the logged block was escaped.
    pub fn is_escaped(&self) -> (r: bool)
        ensures
            r == self.escaped(),
    {
        self.flags & TAG_FLAG_ESCAPE != 0
    }

    /// Whether this is the last tag.
    pub fn is_last(&self) -> (r: bool)
        ensures
            r == self.last(),
    {
        self.flags & TAG_FLAG_LAST_TAG != 0
    }

    /// Whether no UUID follows this tag.
    pub fn reuses_uuid(&self) -> (r: bool)
        ensures
            r == (self.flags & TAG_FLAG_SAME_UUID != 0),
    {
        self.flags & TAG_FLAG_SAME_UUID != 0
    }

    /// Whether `logged_block`, as it stands in the log, has the checksum that
    /// the tag holds of it. A tag without a checksum accepts every block.
    pub fn verify_data_csum(
        &self,
        seed: JournalCsumSeed,
        tid: Tid,
        logged_block: &[u8; BLOCK_SIZE],
    ) -> (ok: bool)
        ensures
            ok == self.data_ok(seed, tid, logged_block@),
    {
        match self.checksum {
            None => true,
            Some(stored) => {
                let csum: u32 = seed.data_block_csum(tid, logged_block);
                match stored {
                    TagChecksum::V2(low) => low as u32 == csum % 0x1_0000,
                    TagChecksum::V3(full) => full == csum,
                }
            },
        }
    }
}

/// A place in the tag array of a descriptor.
#[derive(Clone, Copy, Debug, PartialEq, Eq, Structural)]
pub struct TagCursor {
    pub offset: usize,
    pub done: bool,
}

impl TagCursor {
    /// The cursor is at most one stride past the tag area.
    pub open spec fn wf(self, layout: TagLayout) -> bool {
        layout.wf() && self.offset <= BLOCK_SIZE + TAG_UUID_BYTES
    }

    /// What the cursor has not yielded yet.
    pub open spec fn rest(self, layout: TagLayout, descriptor: Seq<u8>) -> Seq<
        Result<DescriptorTag, Error>,
    > {
        if self.done {
            Seq::empty()
        } else {
            layout.walked(descriptor, self.offset as int)
        }
    }

    /// A cursor at the first tag.
    pub fn start() -> (c: Self)
        ensures
            c == (TagCursor { offset: JOURNAL_HEADER_SIZE, done: false }),
    {
        TagCursor { offset: JOURNAL_HEADER_SIZE, done: false }
    }

    /// Yields the next tag.
    pub fn next(&mut self, layout: &TagLayout, descriptor: &[u8; BLOCK_SIZE]) -> (r: Option<
        Result<DescriptorTag, Error>,
    >)
        requires
            old(self).wf(*layout),
        ensures
            final(self).wf(*layout),
            r is None <==> old(self).rest(*layout, descriptor@).len() == 0,
            r is None ==> final(self).rest(*layout, descriptor@).len() == 0,
            r matches Some(item) ==> {
                let before = old(self).rest(*layout, descriptor@);
                &&& item == before[0]
                &&& final(self).rest(*layout, descriptor@) == before.skip(1)
                &&& item matches Ok(tag) ==> final(self).offset == old(self).offset + tag.stride(
                    *layout,
                )
            },
    {
        if self.done {
            return None;
        }
        let ghost before = self.rest(*layout, descriptor@);
        if self.offset + layout.tag_bytes > layout.tag_area_end() {
            self.done = true;
            assert(before.skip(1) =~= Seq::empty());
            return Some(Err(Error::TagPastArea));
        }
        let tag = match layout.decode_tag(descriptor, self.offset) {
            Ok(tag) => tag,
            Err(e) => {
                self.done = true;
                assert(before.skip(1) =~= Seq::empty());
                return Some(Err(e));
            },
        };
        self.offset = self.offset + layout.tag_bytes;
        if !tag.reuses_uuid() {
            self.offset = self.offset + TAG_UUID_BYTES;
        }
        if tag.is_last() {
            self.done = true;
        }
        assert(self.rest(*layout, descriptor@) =~= before.skip(1));
        Some(Ok(tag))
    }
}

/// A walk of the tags of one descriptor.
pub struct TagWalk<'a> {
    pub layout: TagLayout,
    pub descriptor: &'a [u8; BLOCK_SIZE],
    pub cursor: TagCursor,
}

impl<'a> TagWalk<'a> {
    /// What the walk has not yielded yet.
    pub open spec fn rest(self) -> Seq<Result<DescriptorTag, Error>> {
        self.cursor.rest(self.layout, self.descriptor@)
    }

    /// Yields the next tag.
    pub fn next(&mut self) -> (r: Option<Result<DescriptorTag, Error>>)
        requires
            old(self).cursor.wf(old(self).layout),
        ensures
            final(self).cursor.wf(final(self).layout),
            final(self).layout == old(self).layout,
            final(self).descriptor == old(self).descriptor,
            r is None <==> old(self).rest().len() == 0,
            r is None ==> final(self).rest().len() == 0,
            r matches Some(item) ==> item == old(self).rest()[0] && final(self).rest()
                == old(self).rest().skip(1),
    {
        let layout = self.layout;
        let descriptor = self.descriptor;
        self.cursor.next(&layout, descriptor)
    }
}

/// `n` tags fit a descriptor if and only if `n` is at most the capacity, and
/// the tags below the capacity stand in the tag area.
pub proof fn lemma_capacity(layout: TagLayout, n: int)
    requires
        layout.wf(),
        n >= 0,
    ensures
        layout.capacity() > 0,
        layout.capacity() <= 508,
        n <= layout.capacity() <==> JOURNAL_HEADER_SIZE + TAG_UUID_BYTES + n * layout.tag_bytes
            <= layout.area_end(),
        n < layout.capacity() ==> layout.tag_offset(n) + layout.tag_bytes <= layout.area_end(),
{
    let t = layout.tag_bytes as int;
    if t == 8 {
        assert(n * t == n * 8);
    } else if t == 10 {
        assert(n * t == n * 10);
    } else if t == 12 {
        assert(n * t == n * 12);
    } else if t == 14 {
        assert(n * t == n * 14);
    } else {
        assert(t == 16);
        assert(n * t == n * 16);
    }
}

} // verus!
