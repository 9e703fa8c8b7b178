//! Targets of symbolic links: a short one is kept in the inode's block area, a
//! longer one in a data block.

use vstd::prelude::*;
use vstd::utf8::{
    decode_utf8, encode_utf8, encode_utf8_decode_utf8, encode_utf8_valid_utf8, valid_utf8,
};

use crate::bytes::BLOCK_SIZE;
use crate::error::Error;
use crate::inode::desc::{extent_based, FileFlags, InodeDesc, InodeType, FLAG_EXTENTS};
use crate::inode::device::RAW_BLOCK_PTRS_LEN;
use crate::inode::node::{
    sectors_in_use, DataForgetPolicy, ExtentSnapshot, Inode, InodePayload,
};
use crate::inode::ops::{after_ops, cache_resize, lemma_size_after, CacheResize, FileOp};
use crate::inode::raw::word_byte;
use crate::inode::time::Duration;
use crate::inode::write::{rollback_steps, rollback_write};
use crate::journal::tid::Tid;

verus! {

/// Bytes of the block area. A target that is shorter is kept there: one byte
/// is left for a zero behind it.
pub const MAX_FAST_SYMLINK_LEN: usize = 60;

/// The bytes of a block area.
pub open spec fn area_bytes(words: Seq<u32>) -> Seq<u8> {
    Seq::new(MAX_FAST_SYMLINK_LEN as nat, |i: int| word_byte(words[i / 4], i % 4))
}

/// Whether a target of `len` bytes is kept in the block area.
pub open spec fn fits_inline(len: nat) -> bool {
    len < MAX_FAST_SYMLINK_LEN
}

/// A target in the block area.
#[derive(Clone, Copy, Debug)]
pub struct FastSymlinkTarget {
    pub block_ptrs: [u32; RAW_BLOCK_PTRS_LEN],
}

/// A target, with zeros behind it, as it fills a block area.
pub open spec fn padded(target: Seq<u8>) -> Seq<u8> {
    Seq::new(
        MAX_FAST_SYMLINK_LEN as nat,
        |i: int|
            if i < target.len() {
                target[i]
            } else {
                0
            },
    )
}

impl FastSymlinkTarget {
    /// Takes a block area as it is.
    pub fn new(block_ptrs: [u32; RAW_BLOCK_PTRS_LEN]) -> (t: Self)
        ensures
            t.block_ptrs == block_ptrs,
    {
        FastSymlinkTarget { block_ptrs }
    }

    /// The block area.
    pub fn block_ptrs(&self) -> (r: [u32; RAW_BLOCK_PTRS_LEN])
        ensures
            r == self.block_ptrs,
    {
        self.block_ptrs
    }

    /// Puts a target into a block area, with zeros behind it.
    pub fn store(target: &[u8]) -> (t: Self)
        requires
            target@.len() <= MAX_FAST_SYMLINK_LEN,
        ensures
            area_bytes(t.block_ptrs@) == padded(target@),
    {
        let ghost want = padded(target@);
        let mut words = [0u32; RAW_BLOCK_PTRS_LEN];
        let mut w: usize = 0;
        while w < RAW_BLOCK_PTRS_LEN
            invariant
                w <= RAW_BLOCK_PTRS_LEN,
                want == padded(target@),
                forall|i: int| 0 <= i < 4 * w ==> word_byte(words@[i / 4], i % 4) == want[i],
            decreases RAW_BLOCK_PTRS_LEN - w,
        {
            let a: u8 = byte_or_zero(target, 4 * w);
            let b: u8 = byte_or_zero(target, 4 * w + 1);
            let c: u8 = byte_or_zero(target, 4 * w + 2);
            let d: u8 = byte_or_zero(target, 4 * w + 3);
            let word: u32 = a as u32 + b as u32 * 0x100 + c as u32 * 0x1_0000 + d as u32
                * 0x100_0000;
            proof {
                lemma_bytes_of_word(a, b, c, d);
            }
            words[w] = word;
            w += 1;
            assert forall|i: int| 0 <= i < 4 * w implies word_byte(words@[i / 4], i % 4)
                == want[i] by {
                if i >= 4 * (w - 1) {
                    assert(i / 4 == w - 1);
                }
            }
        }
        assert(area_bytes(words@) =~= want);
        FastSymlinkTarget { block_ptrs: words }
    }

    /// Reads the first `len` bytes of the block area.
    pub fn read(&self, len: usize) -> (bytes: Vec<u8>)
        requires
            len <= MAX_FAST_SYMLINK_LEN,
        ensures
            bytes@ == area_bytes(self.block_ptrs@).take(len as int),
    {
        let mut bytes: Vec<u8> = Vec::new();
        let mut i: usize = 0;
        while i < len
            invariant
                i <= len <= MAX_FAST_SYMLINK_LEN,
                bytes@ == area_bytes(self.block_ptrs@).take(i as int),
            decreases len - i,
        {
            let word: u32 = self.block_ptrs[i / 4];
            let r: usize = i % 4;
            let byte: u8 = if r == 0 {
                (word % 0x100) as u8
            } else if r == 1 {
                (word / 0x100 % 0x100) as u8
            } else if r == 2 {
                (word / 0x1_0000 % 0x100) as u8
            } else {
                (word / 0x100_0000) as u8
            };
            bytes.push(byte);
            i += 1;
            assert(bytes@ =~= area_bytes(self.block_ptrs@).take(i as int));
        }
        bytes
    }
}

/// The byte `i`, or zero behind the end.
fn byte_or_zero(bytes: &[u8], i: usize) -> (b: u8)
    ensures
        b == (if i < bytes@.len() {
            bytes@[i as int]
        } else {
            0
        }),
{
    if i < bytes.len() {
        bytes[i]
    } else {
        0
    }
}

proof fn lemma_bytes_of_word(a: u8, b: u8, c: u8, d: u8)
    ensures
        word_byte((a + b * 0x100 + c * 0x1_0000 + d * 0x100_0000) as u32, 0) == a,
        word_byte((a + b * 0x100 + c * 0x1_0000 + d * 0x100_0000) as u32, 1) == b,
        word_byte((a + b * 0x100 + c * 0x1_0000 + d * 0x100_0000) as u32, 2) == c,
        word_byte((a + b * 0x100 + c * 0x1_0000 + d * 0x100_0000) as u32, 3) == d,
{
    let w = (a + b * 0x100 + c * 0x1_0000 + d * 0x100_0000) as u32;
    assert(w % 0x100 == a && w / 0x100 % 0x100 == b && w / 0x1_0000 % 0x100 == c && w / 0x100_0000
        == d) by (bit_vector)
        requires
            w == a + b * 0x100 + c * 0x1_0000 + d * 0x100_0000,
    ;
}

/// Calls `String::from_utf8` of std, which gives the text that the bytes
/// encode, and refuses bytes that are not valid UTF-8.
#[verifier::external_body]
fn string_from_utf8(bytes: Vec<u8>) -> (r: Option<String>)
    ensures
        r is Some <==> valid_utf8(bytes@),
        r matches Some(text) ==> text@ == decode_utf8(bytes@),
{
    String::from_utf8(bytes).ok()
}

/// The text that the bytes of a target encode.
pub fn target_text(bytes: Vec<u8>) -> (r: Result<String, Error>)
    ensures
        r is Ok <==> valid_utf8(bytes@),
        r matches Err(e) ==> e == Error::TargetNotUtf8,
        r matches Ok(text) ==> text@ == decode_utf8(bytes@),
{
    match string_from_utf8(bytes) {
        Some(text) => Ok(text),
        None => Err(Error::TargetNotUtf8),
    }
}

/// How a target is written.
pub enum LinkPlan {
    /// Into the block area, by [`Inode::keep_link_inline`], after these steps.
    Inline(Vec<FileOp>),
    /// Into a data block, by these steps, after [`Inode::switch_to_block`]. When
    /// one fails, the rollback is performed instead of the rest.
    Block { ops: Vec<FileOp>, rollback: Vec<FileOp> },
}

/// What a link gives.
pub enum LinkRead {
    /// The target.
    Text(String),
    /// The first bytes of its data block, which [`target_text`] takes.
    Block { len: u64 },
}

/// The steps that free the data block of a target before.
pub open spec fn free_target_steps(inode: Inode) -> Seq<FileOp> {
    if inode.payload is DataBacked {
        seq![FileOp::Truncate { size: 0 }]
    } else {
        seq![]
    }
}

/// The steps that write a target of `len` bytes into a data block.
pub open spec fn block_target_steps(inode: Inode, len: u64) -> Seq<FileOp> {
    (if len > inode.desc.size {
        seq![FileOp::ResizeCache(cache_resize(len, inode.desc.size))]
    } else {
        seq![]
    }) + seq![
        FileOp::Allocate { first: 0, stop: 1 },
        FileOp::WritePages { start: 0, end: len },
        FileOp::MarkWritten { first: 0, stop: 1 },
        FileOp::SetSize { size: len },
        FileOp::StampTimes,
    ]
}

/// Why a target of `len` bytes cannot be written.
pub open spec fn link_fault(inode: Inode, len: nat) -> Option<Error> {
    if inode.desc.type_ != InodeType::SymLink {
        Some(Error::NotSymlink)
    } else if len >= BLOCK_SIZE {
        Some(Error::TargetTooLong)
    } else {
        None
    }
}

/// The inode with a data block for its target.
pub open spec fn block_link(inode: Inode) -> Inode {
    if inode.payload is DataBacked {
        inode
    } else {
        Inode {
            desc: InodeDesc {
                flags: FileFlags(inode.desc.flags.0 | FLAG_EXTENTS),
                ..inode.desc
            },
            dirty: true,
            payload: InodePayload::DataBacked { forget: DataForgetPolicy::Forget, npages: 0 },
            ..inode
        }
    }
}

/// The inode with a target in its block area.
pub open spec fn inline_link(
    inode: Inode,
    block: [u32; RAW_BLOCK_PTRS_LEN],
    len: nat,
    now: Duration,
) -> Inode {
    Inode {
        desc: InodeDesc {
            flags: FileFlags(inode.desc.flags.0 & !FLAG_EXTENTS),
            block,
            size: len as u64,
            sector_count: 0,
            mtime: now,
            ctime: now,
            ..inode.desc
        },
        dirty: true,
        payload: InodePayload::FastSymlink { target: FastSymlinkTarget { block_ptrs: block } },
        ..inode
    }
}

/// The bytes of a target in the block area. One byte is left for a zero.
pub open spec fn inline_target(inode: Inode) -> Seq<u8> {
    area_bytes(inode.payload->target.block_ptrs@).take(
        if inode.desc.size < MAX_FAST_SYMLINK_LEN - 1 {
            inode.desc.size as int
        } else {
            MAX_FAST_SYMLINK_LEN - 1
        },
    )
}

impl Inode {
    /// Plans to write the target of a link. A target that leaves a byte of the
    /// block area goes there, a longer one into a data block.
    pub fn write_link(&self, target: &str) -> (r: Result<LinkPlan, Error>)
        ensures
            match r {
                Err(e) => link_fault(*self, encode_utf8(target@).len()) == Some(e),
                Ok(plan) => {
                    let len = encode_utf8(target@).len();
                    &&& link_fault(*self, len) is None
                    &&& if fits_inline(len) {
                        plan matches LinkPlan::Inline(ops) && ops@ == free_target_steps(*self)
                    } else {
                        &&& plan matches LinkPlan::Block { ops, rollback }
                        &&& ops@ == block_target_steps(*self, len as u64)
                        &&& rollback@ == rollback_steps(block_link(*self), len as u64)
                    }
                },
            },
    {
        if self.desc.type_ != InodeType::SymLink {
            return Err(Error::NotSymlink);
        }
        let len: usize = target.as_bytes().len();
        if len >= BLOCK_SIZE {
            return Err(Error::TargetTooLong);
        }
        if len < MAX_FAST_SYMLINK_LEN {
            let ops = if self.payload.is_data_backed() {
                vec![FileOp::Truncate { size: 0 }]
            } else {
                Vec::new()
            };
            assert(ops@ =~= free_target_steps(*self));
            return Ok(LinkPlan::Inline(ops));
        }
        let end: u64 = len as u64;
        let mut switched = *self;
        switched.become_block();
        let rollback = rollback_write(&switched, end);
        let mut ops: Vec<FileOp> = Vec::new();
        if end > self.desc.size {
            match CacheResize::plan(end, self.desc.size) {
                Err(e) => {
                    assert(false);
                    return Err(e);
                },
                Ok(resize) => {
                    ops.push(FileOp::ResizeCache(resize));
                },
            }
        }
        ops.push(FileOp::Allocate { first: 0, stop: 1 });
        ops.push(FileOp::WritePages { start: 0, end });
        ops.push(FileOp::MarkWritten { first: 0, stop: 1 });
        ops.push(FileOp::SetSize { size: end });
        ops.push(FileOp::StampTimes);
        assert(ops@ =~= block_target_steps(*self, end));
        Ok(LinkPlan::Block { ops, rollback })
    }

    fn become_block(&mut self)
        ensures
            *final(self) == block_link(*old(self)),
    {
        if !self.payload.is_data_backed() {
            self.payload = InodePayload::DataBacked { forget: DataForgetPolicy::Forget, npages: 0 };
            self.desc.flags = FileFlags(self.desc.flags.0 | FLAG_EXTENTS);
            self.dirty = true;
        }
    }

    /// Gives a link a data block for its target, if it has none. Its extents
    /// start out empty.
    pub fn switch_to_block(&mut self)
        requires
            old(self).wf(),
            old(self).desc.type_ == InodeType::SymLink,
        ensures
            final(self).wf(),
            *final(self) == block_link(*old(self)),
            !(old(self).payload is DataBacked) ==> extent_based(final(self).desc.flags),
    {
        let ghost flags = self.desc.flags.0;
        self.become_block();
        assert((flags | 0x8_0000u32) & 0x8_0000u32 == 0x8_0000u32 && (flags & 0x102C_10FFu32
            == flags ==> (flags | 0x8_0000u32) & 0x102C_10FFu32 == flags | 0x8_0000u32))
            by (bit_vector);
    }

    /// Keeps the target of a link in its block area. The area holds no extents
    /// then, and is not taken for them; and the link has no data block any more.
    pub fn keep_link_inline(&mut self, target: &str, now: Duration)
        requires
            old(self).wf(),
            old(self).desc.type_ == InodeType::SymLink,
            fits_inline(encode_utf8(target@).len()),
            now.wf(),
        ensures
            final(self).wf(),
            *final(self) == inline_link(
                *old(self),
                final(self).desc.block,
                encode_utf8(target@).len(),
                now,
            ),
            area_bytes(final(self).desc.block@) == padded(encode_utf8(target@)),
            !extent_based(final(self).desc.flags),
    {
        let bytes = target.as_bytes();
        let kept = FastSymlinkTarget::store(bytes);
        let ghost flags = self.desc.flags.0;
        self.desc.remove_flags(FileFlags(FLAG_EXTENTS));
        assert((flags & !0x8_0000u32) & 0x8_0000u32 != 0x8_0000u32) by (bit_vector);
        self.desc.block = kept.block_ptrs();
        self.desc.sector_count = 0;
        self.payload = InodePayload::FastSymlink { target: kept };
        self.set_file_size(bytes.len() as u64);
        self.set_mtime_ctime(now);
    }

    /// Whether the target of a link is in its block area.
    pub fn is_fast_symlink(&self) -> (r: bool)
        ensures
            r == (self.payload is FastSymlink),
    {
        matches!(self.payload, InodePayload::FastSymlink { .. })
    }

    /// Reads the target of a link, or says how much of its data block to read.
    pub fn read_link(&self) -> (r: Result<LinkRead, Error>)
        requires
            self.wf(),
        ensures
            if self.desc.type_ != InodeType::SymLink {
                r == Err::<LinkRead, Error>(Error::NotSymlink)
            } else if self.payload is FastSymlink {
                match r {
                    Err(e) => !valid_utf8(inline_target(*self)) && e == Error::TargetNotUtf8,
                    Ok(LinkRead::Text(text)) => {
                        &&& valid_utf8(inline_target(*self))
                        &&& text@ == decode_utf8(inline_target(*self))
                    },
                    Ok(LinkRead::Block { .. }) => false,
                }
            } else {
                r == Ok::<LinkRead, Error>(LinkRead::Block { len: self.desc.size })
            },
    {
        if self.desc.type_ != InodeType::SymLink {
            return Err(Error::NotSymlink);
        }
        match &self.payload {
            InodePayload::FastSymlink { target } => {
                let len: usize = if self.desc.size < MAX_FAST_SYMLINK_LEN as u64 - 1 {
                    self.desc.size as usize
                } else {
                    MAX_FAST_SYMLINK_LEN - 1
                };
                match target_text(target.read(len)) {
                    Err(e) => Err(e),
                    Ok(text) => Ok(LinkRead::Text(text)),
                }
            },
            _ => Ok(LinkRead::Block { len: self.desc.size }),
        }
    }
}

/// A target that was written into the block area is read back.
pub proof fn inline_target_round_trips(
    inode: Inode,
    block: [u32; RAW_BLOCK_PTRS_LEN],
    target: Seq<char>,
    now: Duration,
)
    requires
        fits_inline(encode_utf8(target).len()),
        area_bytes(block@) == padded(encode_utf8(target)),
    ensures
        ({
            let kept = inline_target(inline_link(inode, block, encode_utf8(target).len(), now));
            valid_utf8(kept) && decode_utf8(kept) == target
        }),
{
    let bytes = encode_utf8(target);
    let kept = inline_target(inline_link(inode, block, bytes.len(), now));
    assert(kept =~= bytes);
    encode_utf8_valid_utf8(target);
    encode_utf8_decode_utf8(target);
}

/// A link whose target is in its block area has no sectors and no extents,
/// whatever it held before.
pub proof fn fast_links_have_no_sectors(
    inode: Inode,
    block: [u32; RAW_BLOCK_PTRS_LEN],
    len: nat,
    now: Duration,
    extents: ExtentSnapshot,
)
    ensures
        ({
            let fast = inline_link(inode, block, len, now);
            &&& fast.payload is FastSymlink
            &&& sectors_in_use(fast, extents) == 0
            &&& fast.settled(extents).sector_count == 0
            &&& !extent_based(fast.desc.flags)
        }),
{
    let flags = inode.desc.flags.0;
    assert((flags & !0x8_0000u32) & 0x8_0000u32 != 0x8_0000u32) by (bit_vector);
}

/// A target that was written into a data block is read back: the size of the
/// link says where it ends, and its bytes are the text.
pub proof fn block_target_round_trips(
    inode: Inode,
    target: Seq<char>,
    now: Duration,
    tid: Option<Tid>,
    seen: Seq<ExtentSnapshot>,
)
    requires
        encode_utf8(target).len() < BLOCK_SIZE,
    ensures
        ({
            let bytes = encode_utf8(target);
            let steps = block_target_steps(inode, bytes.len() as u64);
            &&& after_ops(block_link(inode), steps, now, tid, seen).desc.size == bytes.len()
            &&& valid_utf8(bytes)
            &&& decode_utf8(bytes) == target
        }),
{
    let bytes = encode_utf8(target);
    let len = bytes.len() as u64;
    let steps = block_target_steps(inode, len);
    encode_utf8_valid_utf8(target);
    encode_utf8_decode_utf8(target);
    assert(steps[steps.len() - 2] == FileOp::SetSize { size: len });
    lemma_size_after(block_link(inode), steps, now, tid, len, seen);
}

} // verus!
