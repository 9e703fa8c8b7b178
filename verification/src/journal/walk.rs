//! What a walk of a descriptor finds of the tags that were put into it, whatever
//! their flags.

use vstd::prelude::*;

use crate::bytes::{be16, be32, lemma_be16_at, lemma_be32_at, BLOCK_SIZE};
use crate::error::Error;
use crate::journal::format::{data_csum, TAG_FLAG_LAST_TAG};
use crate::journal::tag::{
    blocknr_high, blocknr_low, blocknr_round_trips, put_done, sealed, tag_image, DescriptorTag,
    TagChecksum, TagCsumMode, TagLayout, TagPut, TagWriter,
};
use crate::journal::tid::Tid;

verus! {

/// The tag that a reader finds for a tag that was put.
pub open spec fn put_tag(mode: TagCsumMode, tid: Tid, put: TagPut) -> DescriptorTag {
    DescriptorTag {
        blocknr: put.blocknr,
        flags: put.flags,
        checksum: match mode {
            TagCsumMode::Plain => None,
            TagCsumMode::V2(seed) => Some(
                TagChecksum::V2((data_csum(seed, tid, put.logged) % 0x1_0000) as u16),
            ),
            TagCsumMode::V3(seed) => Some(TagChecksum::V3(data_csum(seed, tid, put.logged))),
        },
    }
}

/// The mode is one that the layout has.
pub open spec fn mode_fits(layout: TagLayout, mode: TagCsumMode) -> bool {
    match mode {
        TagCsumMode::Plain => !layout.csum(),
        TagCsumMode::V2(_) => layout.csum() && !layout.csum_v3,
        TagCsumMode::V3(_) => layout.csum_v3,
    }
}

/// Where the image of a tag stands, a reader finds the tag.
pub proof fn lemma_image_decodes(
    layout: TagLayout,
    mode: TagCsumMode,
    tid: Tid,
    d: Seq<u8>,
    at: int,
    put: TagPut,
)
    requires
        layout.wf(),
        mode_fits(layout, mode),
        layout.has_blocknr_high || put.blocknr <= u32::MAX,
        0 <= at,
        at + layout.tag_bytes <= d.len(),
        forall|k: int|
            0 <= k < tag_image(layout, mode, tid, put.blocknr, put.flags, put.logged).len()
                ==> #[trigger] d[at + k] == tag_image(
                layout,
                mode,
                tid,
                put.blocknr,
                put.flags,
                put.logged,
            )[k],
    ensures
        layout.decoded(d, at) == Ok::<DescriptorTag, Error>(put_tag(mode, tid, put)),
{
    let flags = put.flags;
    let image = tag_image(layout, mode, tid, put.blocknr, flags, put.logged);
    blocknr_round_trips(put.blocknr);
    let low = blocknr_low(put.blocknr);
    let high = blocknr_high(put.blocknr);
    lemma_be32_at(d, at, low);
    match mode {
        TagCsumMode::V3(s) => {
            let csum = data_csum(s, tid, put.logged);
            assert forall|k: int| 0 <= k < 4 implies #[trigger] d[at + 4 + k] == be32(
                flags as u32,
            )[k] by {
                assert(d[at + (4 + k)] == image[4 + k]);
            }
            lemma_be32_at(d, at + 4, flags as u32);
            assert forall|k: int| 0 <= k < 4 implies #[trigger] d[at + 8 + k] == be32(high)[k] by {
                assert(d[at + (8 + k)] == image[8 + k]);
            }
            lemma_be32_at(d, at + 8, high);
            assert forall|k: int| 0 <= k < 4 implies #[trigger] d[at + 12 + k] == be32(
                csum,
            )[k] by {
                assert(d[at + (12 + k)] == image[12 + k]);
            }
            lemma_be32_at(d, at + 12, csum);
        },
        _ => {
            let csum16 = match mode {
                TagCsumMode::V2(s) => (data_csum(s, tid, put.logged) % 0x1_0000) as u16,
                _ => 0u16,
            };
            assert(image[4] == be16(csum16)[0] && image[5] == be16(csum16)[1]);
            assert(image[6] == be16(flags)[0] && image[7] == be16(flags)[1]);
            assert(d[at + 4] == image[4] && d[at + 5] == image[5]);
            assert(d[at + 6] == image[6] && d[at + 7] == image[7]);
            lemma_be16_at(d, at + 4, csum16);
            lemma_be16_at(d, at + 6, flags);
            if layout.has_blocknr_high {
                assert forall|k: int| 0 <= k < 4 implies #[trigger] d[at + 8 + k] == be32(
                    high,
                )[k] by {
                    assert(d[at + (8 + k)] == image[8 + k]);
                }
                lemma_be32_at(d, at + 8, high);
            }
        },
    }
}

/// `writers` are the states of a writer that puts these tags one after another,
/// beginning with an empty tag array.
pub open spec fn puts_tags(writers: Seq<TagWriter>, puts: Seq<TagPut>) -> bool {
    &&& writers.len() == puts.len() + 1
    &&& writers[0].wf()
    &&& writers[0].offset == writers[0].layout.tag_offset(0)
    &&& forall|i: int|
        #![trigger puts[i]]
        0 <= i < puts.len() ==> put_done(writers[i], puts[i], writers[i + 1])
}

proof fn lemma_writers(writers: Seq<TagWriter>, puts: Seq<TagPut>, i: int, j: int)
    requires
        puts_tags(writers, puts),
        0 <= i <= j < writers.len(),
    ensures
        writers[j].wf(),
        writers[j].layout == writers[0].layout,
        writers[j].mode == writers[0].mode,
        writers[j].tid == writers[0].tid,
        writers[j].block@.len() == BLOCK_SIZE,
        writers[i].offset <= writers[j].offset,
    decreases j,
{
    if j > 0 {
        assert(put_done(writers[j - 1], puts[j - 1], writers[j]));
        if i < j {
            lemma_writers(writers, puts, i, j - 1);
        } else {
            lemma_writers(writers, puts, 0, j - 1);
        }
    }
}

/// The image of the tag `i` stands at its offset in every later state.
proof fn lemma_image_stays(writers: Seq<TagWriter>, puts: Seq<TagPut>, i: int, j: int, k: int)
    requires
        puts_tags(writers, puts),
        0 <= i < j < writers.len(),
        0 <= k < tag_image(
            writers[0].layout,
            writers[0].mode,
            writers[0].tid,
            puts[i].blocknr,
            puts[i].flags,
            puts[i].logged,
        ).len(),
    ensures
        writers[j].block@[writers[i].offset + k] == tag_image(
            writers[0].layout,
            writers[0].mode,
            writers[0].tid,
            puts[i].blocknr,
            puts[i].flags,
            puts[i].logged,
        )[k],
    decreases j,
{
    lemma_writers(writers, puts, i, j - 1);
    lemma_writers(writers, puts, 0, i);
    assert(put_done(writers[i], puts[i], writers[i + 1]));
    assert(put_done(writers[j - 1], puts[j - 1], writers[j]));
    if i < j - 1 {
        lemma_image_stays(writers, puts, i, j - 1, k);
        lemma_writers(writers, puts, i + 1, j - 1);
    }
}

proof fn lemma_walked_from(writers: Seq<TagWriter>, puts: Seq<TagPut>, i: int)
    requires
        puts_tags(writers, puts),
        0 <= i < puts.len(),
        forall|k: int|
            0 <= k < puts.len() ==> ((#[trigger] puts[k]).flags & TAG_FLAG_LAST_TAG != 0 <==> k
                == puts.len() - 1),
    ensures
        writers[0].layout.walked(
            sealed(writers[0].mode, writers.last().block@),
            writers[i].offset as int,
        ) == Seq::new(
            (puts.len() - i) as nat,
            |k: int|
                Ok::<DescriptorTag, Error>(
                    put_tag(writers[0].mode, writers[0].tid, puts[i + k]),
                ),
        ),
    decreases puts.len() - i,
{
    let n = puts.len() as int;
    let w = writers[0];
    let body = writers[n].block@;
    let d = sealed(w.mode, body);
    let at = writers[i].offset as int;
    lemma_writers(writers, puts, i, n);
    lemma_writers(writers, puts, 0, i);
    assert(put_done(writers[i], puts[i], writers[i + 1]));
    let image = tag_image(w.layout, w.mode, w.tid, puts[i].blocknr, puts[i].flags, puts[i].logged);
    assert forall|k: int| 0 <= k < image.len() implies #[trigger] d[at + k] == image[k] by {
        lemma_image_stays(writers, puts, i, n, k);
    }
    lemma_image_decodes(w.layout, w.mode, w.tid, d, at, puts[i]);
    if i < n - 1 {
        lemma_walked_from(writers, puts, i + 1);
    }
    assert(w.layout.walked(d, at) =~= Seq::new(
        (n - i) as nat,
        |k: int| Ok::<DescriptorTag, Error>(put_tag(w.mode, w.tid, puts[i + k])),
    ));
}

/// Tags that were put are walked back. Whatever flags and blocks were put, if
/// only the last tag is marked as the last one, a walk of the finished
/// descriptor yields exactly these tags in their order, each with its block
/// number and its flags and with a checksum that accepts its block.
pub proof fn put_tags_are_walked_back(writers: Seq<TagWriter>, puts: Seq<TagPut>)
    requires
        puts_tags(writers, puts),
        puts.len() > 0,
        forall|k: int|
            0 <= k < puts.len() ==> ((#[trigger] puts[k]).flags & TAG_FLAG_LAST_TAG != 0 <==> k
                == puts.len() - 1),
    ensures
        writers[0].layout.walked(
            sealed(writers[0].mode, writers.last().block@),
            writers[0].layout.tag_offset(0),
        ) == Seq::new(
            puts.len(),
            |k: int|
                Ok::<DescriptorTag, Error>(put_tag(writers[0].mode, writers[0].tid, puts[k])),
        ),
        forall|k: int|
            0 <= k < puts.len() ==> {
                let tag = #[trigger] put_tag(writers[0].mode, writers[0].tid, puts[k]);
                &&& tag.blocknr == puts[k].blocknr
                &&& tag.flags == puts[k].flags
                &&& match writers[0].mode {
                    TagCsumMode::Plain => tag.checksum is None,
                    TagCsumMode::V2(seed) => tag.data_ok(seed, writers[0].tid, puts[k].logged),
                    TagCsumMode::V3(seed) => tag.data_ok(seed, writers[0].tid, puts[k].logged),
                }
            },
{
    lemma_walked_from(writers, puts, 0);
    assert(Seq::new(
        puts.len(),
        |k: int| Ok::<DescriptorTag, Error>(put_tag(writers[0].mode, writers[0].tid, puts[k])),
    ) =~= Seq::new(
        (puts.len() - 0) as nat,
        |k: int| Ok::<DescriptorTag, Error>(put_tag(writers[0].mode, writers[0].tid, puts[0 + k])),
    ));
}

} // verus!
