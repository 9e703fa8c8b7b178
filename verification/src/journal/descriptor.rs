//! Descriptor blocks: building one for a run of captured blocks, and what a
//! reader finds in it.

use vstd::prelude::*;

use crate::bytes::{
    be32, be32_at, lemma_be32_at, lemma_be32_of, read_be32, splice, write_bytes, zeroed, zeros,
    BLOCK_SIZE,
};
use crate::error::Error;
use crate::journal::blockmap::Entry;
use crate::journal::format::{
    data_csum, header_block, header_bytes, header_of, lemma_header_round_trips, new_block,
    stamped_tail_verifies, tail_csum_ok, JournalCsumSeed, RawJournalHeader, BLOCKTYPE_DESCRIPTOR,
    JBD2_MAGIC, JOURNAL_HEADER_SIZE, TAG_FLAG_ESCAPE, TAG_FLAG_LAST_TAG, TAG_FLAG_SAME_UUID,
};
use crate::journal::tag::{
    csum_mode, lemma_capacity, sealed, tag_image, DescriptorTag, TagChecksum, TagCsumMode,
    TagLayout, TagPut,
};
use crate::journal::tid::Tid;
use crate::journal::walk::{lemma_image_decodes, put_tag};

verus! {

/// The content that a block is to have at home.
#[verifier::ext_equal]
pub struct Image {
    pub blocknr: u64,
    pub bytes: Seq<u8>,
}

/// A block of a transaction with its content.
pub type Capture = Entry<Box<[u8; BLOCK_SIZE]>>;

/// The content that a captured block is to have at home.
pub open spec fn image_of(capture: Capture) -> Image {
    Image { blocknr: capture.blocknr, bytes: (*capture.value)@ }
}

/// The images of a sequence of captures.
pub open spec fn images(captures: Seq<Capture>) -> Seq<Image> {
    Seq::new(captures.len(), |i: int| image_of(captures[i]))
}

/// Every image is one block long.
pub open spec fn full_blocks(run: Seq<Image>) -> bool {
    forall|i: int| 0 <= i < run.len() ==> (#[trigger] run[i]).bytes.len() == BLOCK_SIZE
}

/// Whether a block has to be escaped: it starts like a log block.
pub open spec fn needs_escape(bytes: Seq<u8>) -> bool {
    be32_at(bytes, 0) == JBD2_MAGIC
}

/// A block as it stands in the log.
pub open spec fn logged_form(bytes: Seq<u8>) -> Seq<u8> {
    if needs_escape(bytes) {
        zeroed(bytes, 0, 4)
    } else {
        bytes
    }
}

/// A block as it stood before it was logged.
pub open spec fn restored(escaped: bool, logged: Seq<u8>) -> Seq<u8> {
    if escaped {
        splice(logged, 0, be32(JBD2_MAGIC))
    } else {
        logged
    }
}

/// Escaping a block for the log loses nothing.
pub proof fn escape_round_trips(bytes: Seq<u8>)
    requires
        bytes.len() == BLOCK_SIZE,
    ensures
        restored(needs_escape(bytes), logged_form(bytes)) == bytes,
        !needs_escape(logged_form(bytes)),
{
    lemma_be32_of(bytes, 0);
    if needs_escape(bytes) {
        let magic = be32(JBD2_MAGIC);
        assert(magic == bytes.subrange(0, 4));
        assert forall|i: int| 0 <= i < BLOCK_SIZE implies restored(true, logged_form(bytes))[i]
            == bytes[i] by {
            if i < 4 {
                assert(magic[i] == bytes.subrange(0, 4)[i]);
            }
        }
        assert(restored(true, logged_form(bytes)) =~= bytes);
        lemma_be32_at(logged_form(bytes), 0, 0);
    }
}

/// The flags of a tag: only the first tag of a descriptor has a UUID, and the
/// last one is marked.
pub open spec fn tag_flags(first: bool, last: bool, escape: bool) -> u16 {
    ((if first {
        0int
    } else {
        TAG_FLAG_SAME_UUID as int
    }) + (if last {
        TAG_FLAG_LAST_TAG as int
    } else {
        0
    }) + (if escape {
        TAG_FLAG_ESCAPE as int
    } else {
        0
    })) as u16
}

proof fn lemma_flag_bits(f: u16)
    by (bit_vector)
    requires
        f == 0 || f == 1 || f == 2 || f == 3 || f == 8 || f == 9 || f == 10 || f == 11,
    ensures
        f & 1 != 0 <==> (f == 1 || f == 3 || f == 9 || f == 11),
        f & 2 != 0 <==> (f == 2 || f == 3 || f == 10 || f == 11),
        f & 8 != 0 <==> f >= 8,
{
}

/// Each flag can be read off the flags it was put into.
pub proof fn tag_flags_decode(first: bool, last: bool, escape: bool)
    ensures
        tag_flags(first, last, escape) & TAG_FLAG_SAME_UUID == 0 <==> first,
        tag_flags(first, last, escape) & TAG_FLAG_LAST_TAG != 0 <==> last,
        tag_flags(first, last, escape) & TAG_FLAG_ESCAPE != 0 <==> escape,
{
    lemma_flag_bits(tag_flags(first, last, escape));
}

/// The flags of the tag `i` of a run.
pub open spec fn run_flags(run: Seq<Image>, i: int) -> u16 {
    tag_flags(i == 0, i == run.len() - 1, needs_escape(run[i].bytes))
}

/// A descriptor with the first `n` tags of a run in place.
pub open spec fn tagged(
    layout: TagLayout,
    mode: TagCsumMode,
    tid: Tid,
    run: Seq<Image>,
    n: nat,
) -> Seq<u8>
    decreases n,
{
    if n == 0 {
        header_block(BLOCKTYPE_DESCRIPTOR, tid)
    } else {
        let i = n - 1;
        splice(
            tagged(layout, mode, tid, run, i as nat),
            layout.tag_offset(i),
            tag_image(
                layout,
                mode,
                tid,
                run[i].blocknr,
                run_flags(run, i),
                logged_form(run[i].bytes),
            ),
        )
    }
}

/// The descriptor block of a run.
#[verifier::opaque]
pub open spec fn run_descriptor(
    layout: TagLayout,
    seed: Option<JournalCsumSeed>,
    tid: Tid,
    run: Seq<Image>,
) -> Seq<u8> {
    let mode = csum_mode(layout, seed);
    sealed(mode, tagged(layout, mode, tid, run, run.len()))
}

/// The tag that a reader finds for the block `i` of a run.
pub open spec fn run_tag(
    layout: TagLayout,
    seed: Option<JournalCsumSeed>,
    tid: Tid,
    run: Seq<Image>,
    i: int,
) -> DescriptorTag {
    DescriptorTag {
        blocknr: run[i].blocknr,
        flags: run_flags(run, i),
        checksum: match csum_mode(layout, seed) {
            TagCsumMode::Plain => None,
            TagCsumMode::V2(seed) => Some(
                TagChecksum::V2(
                    (data_csum(seed, tid, logged_form(run[i].bytes)) % 0x1_0000) as u16,
                ),
            ),
            TagCsumMode::V3(seed) => Some(
                TagChecksum::V3(data_csum(seed, tid, logged_form(run[i].bytes))),
            ),
        },
    }
}

/// The block numbers of a run fit the layout's tags.
pub open spec fn run_fits_tags(layout: TagLayout, run: Seq<Image>) -> bool {
    layout.has_blocknr_high || forall|i: int|
        0 <= i < run.len() ==> (#[trigger] run[i]).blocknr <= u32::MAX
}

/// A tagged block, to be written to the log behind its descriptor.
#[derive(Clone, Copy)]
pub struct LoggedBlock<'t> {
    pub bytes: &'t [u8; BLOCK_SIZE],
    pub escape: bool,
}

impl<'t> LoggedBlock<'t> {
    /// The block as it is to stand in the log.
    pub open spec fn logged(self) -> Seq<u8> {
        if self.escape {
            zeroed(self.bytes@, 0, 4)
        } else {
            self.bytes@
        }
    }

    /// Makes the block as it is to stand in the log.
    pub fn to_logged(&self) -> (block: [u8; BLOCK_SIZE])
        ensures
            block@ == self.logged(),
    {
        let mut block = *self.bytes;
        if self.escape {
            let zero = [0u8; 4];
            assert(zero@ =~= zeros(4));
            write_bytes(&mut block, 0, &zero);
        }
        block
    }
}

/// One descriptor of a chain with the blocks it tags, in the order of the tags.
pub struct DescriptorRun<'t> {
    pub descriptor: [u8; BLOCK_SIZE],
    pub blocks: Vec<LoggedBlock<'t>>,
}

impl<'t> DescriptorRun<'t> {
    /// The run is the one of `run`.
    pub open spec fn is_run_of(
        self,
        layout: TagLayout,
        seed: Option<JournalCsumSeed>,
        tid: Tid,
        run: Seq<Image>,
    ) -> bool {
        &&& self.descriptor@ == run_descriptor(layout, seed, tid, run)
        &&& self.blocks@.len() == run.len()
        &&& forall|i: int|
            0 <= i < run.len() ==> {
                &&& (#[trigger] self.blocks@[i]).logged() == logged_form(run[i].bytes)
                &&& self.blocks@[i].bytes@ == run[i].bytes
                &&& self.blocks@[i].escape == needs_escape(run[i].bytes)
            }
    }

    /// How many blocks the descriptor tags.
    pub fn nr_blocks(&self) -> (n: usize)
        ensures
            n == self.blocks@.len(),
    {
        self.blocks.len()
    }
}

/// Builds the descriptor of one run of captured blocks.
pub fn build_descriptor_run<'t>(
    tid: Tid,
    run: &'t [Capture],
    layout: TagLayout,
    seed: Option<JournalCsumSeed>,
) -> (r: Result<DescriptorRun<'t>, Error>)
    requires
        layout.wf(),
        0 < run@.len() <= layout.capacity(),
    ensures
        r is Ok <==> (seed is Some <==> layout.csum()) && run_fits_tags(layout, images(run@)),
        r matches Err(e) ==> e == (if seed is Some <==> layout.csum() {
            Error::BlockTooWide
        } else {
            Error::SeedMismatch
        }),
        r matches Ok(built) ==> built.is_run_of(layout, seed, tid, images(run@)),
{
    let block = new_block(BLOCKTYPE_DESCRIPTOR, tid);
    let mut writer = match layout.writer(block, tid, seed) {
        Ok(writer) => writer,
        Err(e) => {
            return Err(e);
        },
    };
    let mut blocks: Vec<LoggedBlock<'t>> = Vec::new();
    let ghost all = images(run@);
    let ghost mode = csum_mode(layout, seed);
    let mut i: usize = 0;
    while i < run.len()
        invariant
            layout.wf(),
            i <= run@.len(),
            0 < run@.len() <= layout.capacity(),
            seed is Some <==> layout.csum(),
            mode == csum_mode(layout, seed),
            all == images(run@),
            writer.wf(),
            writer.layout == layout,
            writer.tid == tid,
            writer.mode == mode,
            writer.offset == layout.tag_offset(i as int),
            writer.block@ == tagged(layout, mode, tid, all, i as nat),
            blocks@.len() == i,
            layout.has_blocknr_high || forall|k: int|
                0 <= k < i ==> (#[trigger] all[k]).blocknr <= u32::MAX,
            forall|k: int|
                0 <= k < i ==> {
                    &&& (#[trigger] blocks@[k]).logged() == logged_form(all[k].bytes)
                    &&& blocks@[k].bytes@ == all[k].bytes
                    &&& blocks@[k].escape == needs_escape(all[k].bytes)
                },
        decreases run.len() - i,
    {
        let first = i == 0;
        let last = i == run.len() - 1;
        let capture = &run[i];
        let escape = read_be32(&*capture.value, 0) == JBD2_MAGIC;
        let mut flags: u16 = 0;
        if !first {
            flags += TAG_FLAG_SAME_UUID;
        }
        if last {
            flags += TAG_FLAG_LAST_TAG;
        }
        if escape {
            flags += TAG_FLAG_ESCAPE;
        }
        let block = LoggedBlock { bytes: &*capture.value, escape };
        blocks.push(block);
        let logged = block.to_logged();
        assert(all[i as int] == image_of(*capture));
        proof {
            tag_flags_decode(first, last, escape);
            lemma_capacity(layout, i as int);
            lemma_next_offset(layout, i as int);
            assert(flags == run_flags(all, i as int));
        }
        match writer.put(capture.blocknr, flags, &logged) {
            Ok(()) => {},
            Err(e) => {
                return Err(e);
            },
        }
        i += 1;
    }
    reveal(run_descriptor);
    Ok(DescriptorRun { descriptor: writer.finish(), blocks })
}

/// The tag behind the tag `i` stands one stride on.
proof fn lemma_next_offset(layout: TagLayout, i: int)
    requires
        layout.wf(),
        i >= 0,
    ensures
        layout.tag_offset(i + 1) == layout.tag_offset(i) + layout.tag_bytes + (if i == 0 {
            16int
        } else {
            0
        }),
{
    assert((i + 1) * layout.tag_bytes == i * layout.tag_bytes + layout.tag_bytes)
        by (nonlinear_arith);
}

/// Offsets of tags grow with the tag.
proof fn lemma_offsets_grow(layout: TagLayout, i: int, j: int)
    requires
        layout.wf(),
        0 <= i < j,
    ensures
        layout.tag_offset(i) + layout.tag_bytes <= layout.tag_offset(j),
        layout.tag_offset(i) >= JOURNAL_HEADER_SIZE,
{
    let t = layout.tag_bytes as int;
    assert(i * t + t <= j * t && i * t >= 0) by (nonlinear_arith)
        requires
            0 <= i < j,
            t > 0,
    ;
}

/// Once `n` tags are in place, the tag `i` among them stands at its offset,
/// and the header is untouched.
proof fn lemma_tagged(
    layout: TagLayout,
    mode: TagCsumMode,
    tid: Tid,
    run: Seq<Image>,
    n: nat,
    i: int,
    k: int,
)
    requires
        layout.wf(),
        n <= run.len() <= layout.capacity(),
        0 <= i < n,
        mode matches TagCsumMode::V3(_) <==> layout.csum_v3,
        0 <= k < tag_image(
            layout,
            mode,
            tid,
            run[i].blocknr,
            run_flags(run, i),
            logged_form(run[i].bytes),
        ).len(),
    ensures
        tagged(layout, mode, tid, run, n)[layout.tag_offset(i) + k] == tag_image(
            layout,
            mode,
            tid,
            run[i].blocknr,
            run_flags(run, i),
            logged_form(run[i].bytes),
        )[k],
    decreases n,
{
    let last = n - 1;
    lemma_tagged_len(layout, mode, tid, run, n);
    lemma_tagged_len(layout, mode, tid, run, last as nat);
    lemma_capacity(layout, i);
    if i < last {
        lemma_tagged(layout, mode, tid, run, last as nat, i, k);
        lemma_offsets_grow(layout, i, last);
    } else {
        lemma_offsets_grow(layout, i, i + 1);
    }
}

proof fn lemma_tagged_len(
    layout: TagLayout,
    mode: TagCsumMode,
    tid: Tid,
    run: Seq<Image>,
    n: nat,
)
    requires
        layout.wf(),
    ensures
        tagged(layout, mode, tid, run, n).len() == BLOCK_SIZE,
        tagged(layout, mode, tid, run, n).take(JOURNAL_HEADER_SIZE as int) == header_bytes(
            BLOCKTYPE_DESCRIPTOR,
            tid,
        ),
    decreases n,
{
    if n > 0 {
        lemma_tagged_len(layout, mode, tid, run, (n - 1) as nat);
        lemma_offsets_grow(layout, n - 1, n as int);
    }
    assert(tagged(layout, mode, tid, run, n).take(12) =~= header_bytes(BLOCKTYPE_DESCRIPTOR, tid));
}

/// A reader finds the tag `i` of a run at its offset.
proof fn lemma_run_tag_decodes(
    layout: TagLayout,
    seed: Option<JournalCsumSeed>,
    tid: Tid,
    run: Seq<Image>,
    i: int,
)
    requires
        layout.wf(),
        seed is Some <==> layout.csum(),
        run_fits_tags(layout, run),
        0 <= i < run.len() <= layout.capacity(),
    ensures
        layout.decoded(run_descriptor(layout, seed, tid, run), layout.tag_offset(i)) == Ok::<
            DescriptorTag,
            Error,
        >(run_tag(layout, seed, tid, run, i)),
{
    reveal(run_descriptor);
    let mode = csum_mode(layout, seed);
    let d = run_descriptor(layout, seed, tid, run);
    let body = tagged(layout, mode, tid, run, run.len());
    let at = layout.tag_offset(i);
    let flags = run_flags(run, i);
    let logged = logged_form(run[i].bytes);
    let image = tag_image(layout, mode, tid, run[i].blocknr, flags, logged);
    lemma_tagged_len(layout, mode, tid, run, run.len());
    lemma_capacity(layout, i);
    lemma_offsets_grow(layout, i, i + 1);
    assert forall|k: int| 0 <= k < image.len() implies #[trigger] d[at + k] == image[k] by {
        lemma_tagged(layout, mode, tid, run, run.len(), i, k);
    }
    let put = TagPut { blocknr: run[i].blocknr, flags, logged };
    assert(run_tag(layout, seed, tid, run, i) == put_tag(mode, tid, put));
    lemma_image_decodes(layout, mode, tid, d, at, put);
}

proof fn lemma_run_walks_from(
    layout: TagLayout,
    seed: Option<JournalCsumSeed>,
    tid: Tid,
    run: Seq<Image>,
    i: int,
)
    requires
        layout.wf(),
        seed is Some <==> layout.csum(),
        run_fits_tags(layout, run),
        0 <= i < run.len() <= layout.capacity(),
    ensures
        layout.walked(run_descriptor(layout, seed, tid, run), layout.tag_offset(i)) == Seq::new(
            (run.len() - i) as nat,
            |k: int| Ok::<DescriptorTag, Error>(run_tag(layout, seed, tid, run, i + k)),
        ),
    decreases run.len() - i,
{
    let d = run_descriptor(layout, seed, tid, run);
    lemma_run_tag_decodes(layout, seed, tid, run, i);
    lemma_capacity(layout, i);
    tag_flags_decode(i == 0, i == run.len() - 1, needs_escape(run[i].bytes));
    let tag = run_tag(layout, seed, tid, run, i);
    if i < run.len() - 1 {
        lemma_next_offset(layout, i);
        lemma_run_walks_from(layout, seed, tid, run, i + 1);
    }
    assert(layout.walked(d, layout.tag_offset(i)) =~= Seq::new(
        (run.len() - i) as nat,
        |k: int| Ok::<DescriptorTag, Error>(run_tag(layout, seed, tid, run, i + k)),
    ));
}

/// What is written into a descriptor is what a reader finds in it: a walk of
/// its tags yields the run's blocks in their order, with the flags that tell
/// which of them were escaped and with checksums that accept them, and its
/// header and its tail checksum are right.
pub proof fn descriptor_round_trips(
    layout: TagLayout,
    seed: Option<JournalCsumSeed>,
    tid: Tid,
    run: Seq<Image>,
)
    requires
        layout.wf(),
        seed is Some <==> layout.csum(),
        run_fits_tags(layout, run),
        0 < run.len() <= layout.capacity(),
    ensures
        run_descriptor(layout, seed, tid, run).len() == BLOCK_SIZE,
        layout.walked(run_descriptor(layout, seed, tid, run), layout.tag_offset(0)) == Seq::new(
            run.len(),
            |i: int| Ok::<DescriptorTag, Error>(run_tag(layout, seed, tid, run, i)),
        ),
        forall|i: int|
            0 <= i < run.len() ==> {
                let tag = #[trigger] run_tag(layout, seed, tid, run, i);
                &&& tag.blocknr == run[i].blocknr
                &&& tag.escaped() == needs_escape(run[i].bytes)
                &&& seed matches Some(s) ==> tag.data_ok(s, tid, logged_form(run[i].bytes))
            },
        header_of(run_descriptor(layout, seed, tid, run)) == (RawJournalHeader {
            h_magic: JBD2_MAGIC,
            h_blocktype: BLOCKTYPE_DESCRIPTOR,
            h_sequence: tid.0,
        }),
        seed matches Some(s) ==> tail_csum_ok(s, run_descriptor(layout, seed, tid, run)),
{
    reveal(run_descriptor);
    let mode = csum_mode(layout, seed);
    let d = run_descriptor(layout, seed, tid, run);
    let body = tagged(layout, mode, tid, run, run.len());
    lemma_tagged_len(layout, mode, tid, run, run.len());
    lemma_run_walks_from(layout, seed, tid, run, 0);
    assert(d.take(12) =~= body.take(12));
    lemma_header_round_trips(d, BLOCKTYPE_DESCRIPTOR, tid);
    if let Some(s) = seed {
        stamped_tail_verifies(s, body);
    }
    assert forall|i: int| 0 <= i < run.len() implies (#[trigger] run_tag(
        layout,
        seed,
        tid,
        run,
        i,
    )).escaped() == needs_escape(run[i].bytes) by {
        tag_flags_decode(i == 0, i == run.len() - 1, needs_escape(run[i].bytes));
    }
    assert(Seq::new(
        run.len(),
        |i: int| Ok::<DescriptorTag, Error>(run_tag(layout, seed, tid, run, i)),
    ) =~= Seq::new(
        (run.len() - 0) as nat,
        |k: int| Ok::<DescriptorTag, Error>(run_tag(layout, seed, tid, run, 0 + k)),
    ));
}

} // verus!
