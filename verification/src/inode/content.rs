//! What the steps of a file operation do to the content of a file.
//!
//! A model of the page cache and the extent tree together: which blocks are
//! mapped, which of them are written, and what bytes a reader finds in those.

use vstd::prelude::*;

use crate::inode::falloc::{
    has_full_blocks, hole_is_covered, in_ranges, inner_start, partial_ranges, punch_front,
    zero_step, zero_steps,
};
use crate::inode::node::{pages_for, Inode, PAGE_SIZE};
use crate::inode::ops::{boundary, boundary_too_wide, cache_resize, CacheResize, FileOp};
use crate::inode::resize::{
    block_start, blocks_for, chunked_front, finished, reclaim_steps, whole_resize, FreeEnd,
    FreeLoop, FreedChunk,
};
use crate::inode::write::{
    chunk_end, chunk_start, chunk_steps, range_too_wide, write_steps, AppendWrite, HoleFill,
};

verus! {

/// The content of a file.
#[verifier::ext_equal]
pub struct Content {
    /// The blocks that are mapped, and where each of them lies on the disk.
    pub places: Map<int, int>,
    /// Those of them that are written. The others read as zeros, as holes do.
    pub written: Set<int>,
    /// The bytes of the written blocks.
    pub bytes: Map<int, Seq<u8>>,
}

/// What steps work with besides the content.
pub struct Surroundings {
    /// The bytes that a write brings.
    pub data: Seq<u8>,
    /// Where in the file they go.
    pub offset: int,
    /// Where a block comes to lie when it is mapped.
    pub fresh: spec_fn(int) -> int,
    /// What is on the disk of each block. A page that is dropped is read again
    /// from there.
    pub disk: spec_fn(int) -> Seq<u8>,
}

impl Content {
    /// The blocks that are mapped.
    pub open spec fn mapped(self) -> Set<int> {
        self.places.dom()
    }

    /// The byte that a reader finds at `p`.
    pub open spec fn byte(self, p: int) -> u8 {
        if self.bytes.dom().contains(p / PAGE_SIZE as int) {
            self.bytes[p / PAGE_SIZE as int][p % PAGE_SIZE as int]
        } else {
            0
        }
    }

    /// Written blocks are mapped and have their bytes, and none of them lies past
    /// the end of the file.
    pub open spec fn wf(self, size: u64) -> bool {
        &&& self.written.subset_of(self.mapped())
        &&& self.bytes.dom() == self.written
        &&& forall|b: int| #[trigger]
            self.bytes.dom().contains(b) ==> 0 <= b < blocks_for(size) && self.bytes[b].len()
                == PAGE_SIZE
    }

    /// The content without the blocks from `keep` on.
    pub open spec fn truncated(self, keep: int) -> Content {
        let kept = Set::new(|b: int| b < keep);
        Content {
            places: self.places.restrict(kept),
            written: self.written.intersect(kept),
            bytes: self.bytes.restrict(kept),
        }
    }

    /// The content without some blocks.
    pub open spec fn punched(self, first: int, stop: int) -> Content {
        let kept = Set::new(|b: int| b < first || b >= stop);
        Content {
            places: self.places.restrict(kept),
            written: self.written.intersect(kept),
            bytes: self.bytes.restrict(kept),
        }
    }

    /// The content with some bytes of a block filled with zeros, if it is mapped. A
    /// block without bytes of its own reads as zeros anyway.
    pub open spec fn zeroed(self, block: int, from: int, to: int) -> Content {
        if self.mapped().contains(block) && self.bytes.dom().contains(block) {
            Content {
                bytes: self.bytes.insert(
                    block,
                    Seq::new(
                        PAGE_SIZE as nat,
                        |i: int|
                            if from <= i < to {
                                0
                            } else {
                                self.bytes[block][i]
                            },
                    ),
                ),
                ..self
            }
        } else {
            self
        }
    }

    /// The content with the pages from `keep` on read again from the disk.
    pub open spec fn reread(self, keep: int, disk: spec_fn(int) -> Seq<u8>) -> Content {
        Content {
            bytes: Map::new(
                |b: int| self.bytes.dom().contains(b),
                |b: int|
                    if b < keep {
                        self.bytes[b]
                    } else {
                        disk(b)
                    },
            ),
            ..self
        }
    }

    /// The content after its page cache was resized.
    pub open spec fn cache_resized(
        self,
        resize: CacheResize,
        disk: spec_fn(int) -> Seq<u8>,
    ) -> Content {
        let filled = match resize.probe {
            Some(block) => self.zeroed(
                block as int,
                (boundary(resize.new, resize.old) % PAGE_SIZE) as int,
                PAGE_SIZE as int,
            ),
            None => self,
        };
        if resize.new < resize.old {
            filled.reread(pages_for(resize.new), disk)
        } else {
            filled
        }
    }

    /// The content with the holes among some blocks mapped, as unwritten. What was
    /// mapped before stays where it is.
    pub open spec fn allocated(
        self,
        first: int,
        stop: int,
        fresh: spec_fn(int) -> int,
    ) -> Content {
        Content {
            places: Map::new(
                |b: int| self.places.dom().contains(b) || first <= b < stop,
                |b: int|
                    if self.places.dom().contains(b) {
                        self.places[b]
                    } else {
                        fresh(b)
                    },
            ),
            ..self
        }
    }

    /// The content after holes were filled from `first` on, as far as it came.
    pub open spec fn filled(
        self,
        first: u32,
        stop: u32,
        fill: HoleFill,
        fresh: spec_fn(int) -> int,
    ) -> Content {
        self.allocated(first as int, filled_to(stop, fill) as int, fresh)
    }

    /// The content after bytes were copied into the page cache.
    pub open spec fn overwritten(self, start: u64, end: u64, around: Surroundings) -> Content {
        let first = (start / PAGE_SIZE) as int;
        let stop = blocks_for(end);
        Content {
            bytes: Map::new(
                |b: int| self.bytes.dom().contains(b) || first <= b < stop,
                |b: int|
                    if first <= b < stop {
                        Seq::new(
                            PAGE_SIZE as nat,
                            |i: int|
                                if start <= b * PAGE_SIZE + i < end {
                                    around.data[b * PAGE_SIZE + i - around.offset]
                                } else {
                                    self.byte(b * PAGE_SIZE + i)
                                },
                        )
                    } else {
                        self.bytes[b]
                    },
            ),
            ..self
        }
    }

    /// The content after a step. How far a step comes that frees or maps blocks as
    /// far as its transaction has room is told afterwards: by itself, it changes
    /// nothing.
    pub open spec fn after(self, op: FileOp, around: Surroundings) -> Content {
        match op {
            FileOp::ResizeCache(resize) => self.cache_resized(resize, around.disk),
            FileOp::WritePages { start, end } => self.overwritten(start, end, around),
            FileOp::Allocate { first, stop } => self.allocated(
                first as int,
                stop as int,
                around.fresh,
            ),
            FileOp::MarkWritten { first, stop } => Content {
                written: self.written.union(Set::new(|b: int| first <= b < stop)),
                ..self
            },
            FileOp::Truncate { size } => self.truncated(blocks_for(size)),
            FileOp::PunchRange { first, stop } => self.punched(first as int, stop as int),
            FileOp::ZeroIfMapped { block, start, end } => self.zeroed(
                block as int,
                start - block * PAGE_SIZE,
                end - block * PAGE_SIZE,
            ),
            _ => self,
        }
    }

    /// The content after steps.
    pub open spec fn after_all(self, ops: Seq<FileOp>, around: Surroundings) -> Content
        decreases ops.len(),
    {
        if ops.len() == 0 {
            self
        } else {
            self.after_all(ops.drop_last(), around).after(ops.last(), around)
        }
    }

    /// The content after chunks of its end were freed. Blocks below `keep` stay.
    pub open spec fn after_chunks(self, keep: u32, chunks: Seq<FreedChunk>) -> Content
        decreases chunks.len(),
    {
        if chunks.len() == 0 {
            self
        } else {
            let reached = chunks.last().reached;
            self.after_chunks(keep, chunks.drop_last()).truncated(
                if reached < keep {
                    keep as int
                } else {
                    reached as int
                },
            )
        }
    }
}

/// The first block that is not looked at any more after holes were filled up to
/// `stop`.
pub open spec fn filled_to(stop: u32, fill: HoleFill) -> u32 {
    match fill {
        HoleFill::Filled => stop,
        HoleFill::Stopped { reached, .. } => reached,
    }
}

/// Whether a step leaves the content as it is.
pub open spec fn spares_content(op: FileOp) -> bool {
    !(op is ResizeCache || op is WritePages || op is Allocate || op is MarkWritten
        || op is Truncate || op is PunchRange || op is ZeroIfMapped)
}

/// Steps that leave the content as it is can be left out at the end.
pub proof fn lemma_spared_end(content: Content, ops: Seq<FileOp>, around: Surroundings, n: int)
    requires
        0 <= n <= ops.len(),
        forall|i: int| n <= i < ops.len() ==> spares_content(#[trigger] ops[i]),
    ensures
        content.after_all(ops, around) == content.after_all(ops.take(n), around),
    decreases ops.len(),
{
    if n == ops.len() {
        assert(ops.take(n) =~= ops);
    } else {
        let init = ops.drop_last();
        assert(spares_content(ops[ops.len() - 1]));
        assert forall|i: int| n <= i < init.len() implies spares_content(#[trigger] init[i]) by {
            assert(init[i] == ops[i]);
        }
        assert(init.take(n) =~= ops.take(n));
        lemma_spared_end(content, init, around, n);
    }
}

/// The step `i` comes after those before it; those between `n` and it leave the
/// content as it is.
pub proof fn lemma_step(content: Content, ops: Seq<FileOp>, around: Surroundings, n: int, i: int)
    requires
        0 <= n <= i < ops.len(),
        forall|k: int| n <= k < i ==> spares_content(#[trigger] ops[k]),
    ensures
        content.after_all(ops.take(i + 1), around) == content.after_all(
            ops.take(n),
            around,
        ).after(ops[i], around),
{
    let head = ops.take(i + 1);
    assert(head.drop_last() =~= ops.take(i));
    assert forall|k: int| n <= k < i implies spares_content(#[trigger] ops.take(i)[k]) by {
        assert(ops.take(i)[k] == ops[k]);
    }
    lemma_spared_end(content, ops.take(i), around, n);
    assert(ops.take(i).take(n) =~= ops.take(n));
}

/// Blocks of the disk are whole.
pub open spec fn whole_blocks(disk: spec_fn(int) -> Seq<u8>) -> bool {
    forall|b: int| (#[trigger] disk(b)).len() == PAGE_SIZE
}

/// What a change of the size from `old` to `new` makes of a content: the bytes
/// before both sizes are as they were, and all behind them are zeros. Growing maps
/// nothing, and a shrink leaves no block behind the new end.
pub open spec fn resized(before: Content, after: Content, old: u64, new: u64) -> bool {
    &&& after.wf(new)
    &&& forall|p: int|
        0 <= p ==> #[trigger] after.byte(p) == (if p < old && p < new {
            before.byte(p)
        } else {
            0
        })
    &&& new >= old ==> after.places == before.places
    &&& new < old ==> after.places == before.places.restrict(
        Set::new(|b: int| b < blocks_for(new)),
    )
}

pub proof fn lemma_grown(before: Content, resize: CacheResize, disk: spec_fn(int) -> Seq<u8>)
    requires
        before.wf(resize.old),
        resize.new >= resize.old,
        !boundary_too_wide(resize.new, resize.old),
        resize == cache_resize(resize.new, resize.old),
    ensures
        resized(before, before.cache_resized(resize, disk), resize.old, resize.new),
{
    let after = before.cache_resized(resize, disk);
    let old = resize.old;
    assert(after.bytes.dom() =~= before.written);
    assert forall|p: int| 0 <= p implies #[trigger] after.byte(p) == (if p < old && p
        < resize.new {
        before.byte(p)
    } else {
        0
    }) by {
        let b = p / PAGE_SIZE as int;
        if before.bytes.dom().contains(b) {
            assert(b < blocks_for(old));
        }
    }
}

proof fn lemma_shrunk(
    before: Content,
    resize: CacheResize,
    disk: spec_fn(int) -> Seq<u8>,
    after: Content,
)
    requires
        before.wf(resize.old),
        whole_blocks(disk),
        resize.new < resize.old,
        !boundary_too_wide(resize.new, resize.old),
        resize == cache_resize(resize.new, resize.old),
        after == before.cache_resized(resize, disk).truncated(blocks_for(resize.new)),
    ensures
        resized(before, after, resize.old, resize.new),
{
    let new = resize.new;
    let keep = blocks_for(new);
    assert(after.bytes.dom() =~= after.written);
    assert forall|p: int| 0 <= p implies #[trigger] after.byte(p) == (if p < resize.old && p
        < new {
        before.byte(p)
    } else {
        0
    }) by {
        let b = p / PAGE_SIZE as int;
        if p < new {
            assert(b < keep);
            assert(after.bytes.dom().contains(b) == before.bytes.dom().contains(b));
        } else if b < keep {
            assert(b == new / PAGE_SIZE);
        }
    }
}

/// A change of the size keeps the bytes before both sizes, and all bytes behind
/// them read as zeros: those that a growth adds, and, after a shrink, those that a
/// later growth brings back. Growing maps nothing, and after a shrink no block
/// behind the new end is mapped.
pub proof fn resize_keeps_the_front_and_clears_the_rest(
    inode: Inode,
    new_size: u64,
    journaled: bool,
    max_file_size: u64,
    before: Content,
    around: Surroundings,
)
    requires
        before.wf(inode.desc.size),
        whole_blocks(around.disk),
        whole_resize(inode, new_size, journaled, max_file_size).1 is None,
        new_size != inode.desc.size,
    ensures
        resized(
            before,
            before.after_all(
                whole_resize(inode, new_size, journaled, max_file_size).0,
                around,
            ),
            inode.desc.size,
            new_size,
        ),
{
    let ops = whole_resize(inode, new_size, journaled, max_file_size).0;
    let old = inode.desc.size;
    let resize = cache_resize(new_size, old);
    assert(ops.take(0) =~= seq![]);
    lemma_step(before, ops, around, 0, 2);
    assert(ops[2] == FileOp::ResizeCache(resize));
    if new_size > old {
        lemma_spared_end(before, ops, around, 3);
        lemma_grown(before, resize, around.disk);
    } else {
        lemma_step(before, ops, around, 3, 4);
        assert(ops[4] == FileOp::Truncate { size: new_size });
        lemma_spared_end(before, ops, around, 5);
        lemma_shrunk(before, resize, around.disk, before.after_all(ops, around));
    }
}

/// What a shrink cut off does not come back: a file that is shrunk and then grown
/// reads as zeros from the smaller size on, and as before up to there.
pub proof fn shrunk_bytes_stay_gone(
    inode: Inode,
    small: u64,
    shrunk: Inode,
    large: u64,
    journaled: bool,
    max_file_size: u64,
    before: Content,
    around: Surroundings,
)
    requires
        before.wf(inode.desc.size),
        whole_blocks(around.disk),
        small < inode.desc.size,
        small < large,
        shrunk.desc.size == small,
        whole_resize(inode, small, journaled, max_file_size).1 is None,
        whole_resize(shrunk, large, journaled, max_file_size).1 is None,
    ensures
        ({
            let middle = before.after_all(
                whole_resize(inode, small, journaled, max_file_size).0,
                around,
            );
            let after = middle.after_all(
                whole_resize(shrunk, large, journaled, max_file_size).0,
                around,
            );
            &&& after.wf(large)
            &&& after.places == middle.places
            &&& forall|p: int|
                0 <= p ==> #[trigger] after.byte(p) == (if p < small {
                    before.byte(p)
                } else {
                    0
                })
        }),
{
    resize_keeps_the_front_and_clears_the_rest(
        inode,
        small,
        journaled,
        max_file_size,
        before,
        around,
    );
    let middle = before.after_all(
        whole_resize(inode, small, journaled, max_file_size).0,
        around,
    );
    resize_keeps_the_front_and_clears_the_rest(
        shrunk,
        large,
        journaled,
        max_file_size,
        middle,
        around,
    );
    let after = middle.after_all(whole_resize(shrunk, large, journaled, max_file_size).0, around);
    assert forall|p: int| 0 <= p implies #[trigger] after.byte(p) == (if p < small {
        before.byte(p)
    } else {
        0
    }) by {
        assert(p < small ==> middle.byte(p) == before.byte(p));
    }
}

proof fn lemma_chunks(content: Content, keep: u32, chunks: Seq<FreedChunk>)
    ensures
        ({
            let after = content.after_chunks(keep, chunks);
            &&& forall|b: int| b < keep ==> (#[trigger] after.mapped().contains(b)
                <==> content.mapped().contains(b))
            &&& forall|b: int| #[trigger]
                after.mapped().contains(b) ==> after.places[b] == content.places[b]
            &&& forall|b: int| b < keep ==> (#[trigger] after.written.contains(b)
                <==> content.written.contains(b))
            &&& forall|b: int| b < keep ==> (#[trigger] after.bytes.dom().contains(b)
                <==> content.bytes.dom().contains(b))
            &&& forall|b: int|
                b < keep && content.bytes.dom().contains(b) ==> #[trigger] after.bytes[b]
                    == content.bytes[b]
            &&& after.mapped().subset_of(content.mapped())
            &&& after.written.subset_of(content.written)
            &&& after.bytes.dom().subset_of(content.bytes.dom())
        }),
    decreases chunks.len(),
{
    if chunks.len() > 0 {
        lemma_chunks(content, keep, chunks.drop_last());
    }
}

/// A shrink over many transactions that came to its end has done what one in a
/// single transaction does; and however far it came, the bytes before the new end
/// are as they were.
pub proof fn chunked_shrink_clears_the_rest(
    inode: Inode,
    new_size: u64,
    chunks: Seq<FreedChunk>,
    before: Content,
    around: Surroundings,
)
    requires
        before.wf(inode.desc.size),
        whole_blocks(around.disk),
        new_size < inode.desc.size,
        chunked_front(inode, new_size).1 is None,
    ensures
        ({
            let keep = blocks_for(new_size) as u32;
            let free = FreeLoop { size: new_size, keep, end: FreeEnd::Datasync };
            let after = before.after_all(chunked_front(inode, new_size).0, around).after_chunks(
                keep,
                chunks,
            );
            &&& forall|p: int| 0 <= p < new_size ==> #[trigger] after.byte(p) == before.byte(p)
            &&& finished(free, chunks) ==> resized(before, after, inode.desc.size, new_size)
        }),
{
    let ops = chunked_front(inode, new_size).0;
    let keep = blocks_for(new_size) as u32;
    let free = FreeLoop { size: new_size, keep, end: FreeEnd::Datasync };
    let resize = cache_resize(new_size, inode.desc.size);
    assert(ops.take(0) =~= seq![]);
    lemma_step(before, ops, around, 0, 1);
    assert(ops[1] == FileOp::ResizeCache(resize));
    lemma_spared_end(before, ops, around, 2);
    let middle = before.after_all(ops, around);
    assert(middle == before.cache_resized(resize, around.disk));
    let whole = middle.truncated(keep as int);
    lemma_shrunk(before, resize, around.disk, whole);
    lemma_chunks(middle, keep, chunks);
    let after = middle.after_chunks(keep, chunks);
    assert forall|p: int| 0 <= p < new_size implies #[trigger] after.byte(p) == before.byte(p) by {
        let b = p / PAGE_SIZE as int;
        assert(b < keep);
        assert(whole.byte(p) == before.byte(p));
        assert(whole.bytes.dom().contains(b) == middle.bytes.dom().contains(b));
    }
    if finished(free, chunks) {
        assert(after.places =~= whole.places);
        assert(after.written =~= whole.written);
        assert(after.bytes =~= whole.bytes);
    }
}

/// What a write makes of a content of `size` bytes: its bytes are read back, the
/// other bytes of the file are as they were, and a gap before it reads as zeros. Its
/// blocks are mapped and written; what was mapped or written stays so, in its place.
pub open spec fn wrote(
    before: Content,
    after: Content,
    size: u64,
    start: int,
    end: int,
    around: Surroundings,
) -> bool {
    &&& after.wf(if end > size {
        end as u64
    } else {
        size
    })
    &&& forall|p: int|
        0 <= p && (p < size || p < end) ==> #[trigger] after.byte(p) == (if start <= p < end {
            around.data[p - around.offset]
        } else if p < size {
            before.byte(p)
        } else {
            0
        })
    &&& forall|b: int|
        start / PAGE_SIZE as int <= b < blocks_for(end as u64) && start < end
            ==> #[trigger] after.written.contains(b)
    &&& before.written.subset_of(after.written)
    &&& kept_in_place(before, after)
}

/// What was mapped is mapped, where it was.
pub open spec fn kept_in_place(before: Content, after: Content) -> bool {
    forall|b: int| #[trigger]
        before.mapped().contains(b) ==> after.mapped().contains(b) && after.places[b]
            == before.places[b]
}

pub proof fn lemma_wrote(
    before: Content,
    ready: Content,
    after: Content,
    size: u64,
    start: u64,
    end: u64,
    around: Surroundings,
)
    requires
        start < end,
        ready.wf(if end > size {
            end
        } else {
            size
        }),
        forall|p: int|
            0 <= p && (p < size || p < end) ==> #[trigger] ready.byte(p) == (if p < size {
                before.byte(p)
            } else {
                0
            }),
        after.bytes == ready.overwritten(start, end, around).bytes,
        forall|b: int| #[trigger]
            after.written.contains(b) <==> ready.written.contains(b) || start / PAGE_SIZE <= b
                < blocks_for(end),
        after.written.subset_of(after.mapped()),
        before.written.subset_of(ready.written),
        kept_in_place(before, after),
    ensures
        wrote(before, after, size, start as int, end as int, around),
{
    assert(after.bytes.dom() =~= after.written);
    assert forall|p: int| 0 <= p && (p < size || p < end) implies #[trigger] after.byte(p) == (
    if start <= p < end {
        around.data[p - around.offset]
    } else if p < size {
        before.byte(p)
    } else {
        0
    }) by {
        let b = p / PAGE_SIZE as int;
        assert(b * PAGE_SIZE + p % PAGE_SIZE as int == p);
        assert(ready.byte(p) == (if p < size {
            before.byte(p)
        } else {
            0
        }));
        if start <= p < end {
            assert(start / PAGE_SIZE <= b < blocks_for(end));
        }
    }
}

/// What a write in one transaction wrote is read back, and the rest of the file is
/// as it was. A gap between the old end and the write reads as zeros.
pub proof fn written_bytes_are_read_back(
    inode: Inode,
    offset: u64,
    end: u64,
    before: Content,
    around: Surroundings,
)
    requires
        before.wf(inode.desc.size),
        offset < end,
        !range_too_wide(offset, end),
        around.offset == offset,
        around.data.len() == end - offset,
    ensures
        wrote(
            before,
            before.after_all(write_steps(inode, offset, end), around),
            inode.desc.size,
            offset as int,
            end as int,
            around,
        ),
{
    let ops = write_steps(inode, offset, end);
    let size = inode.desc.size;
    let first = (offset / PAGE_SIZE) as u32;
    let stop = blocks_for(end) as u32;
    assert(ops.take(0) =~= seq![]);
    let grows = end > size;
    let base: int = if grows {
        1
    } else {
        0
    };
    let resize = cache_resize(end, size);
    let ready = before.after_all(ops.take(base), around);
    if grows {
        assert(ops[0] == FileOp::ResizeCache(resize));
        lemma_step(before, ops, around, 0, 0);
        lemma_grown(before, resize, around.disk);
    }
    lemma_step(before, ops, around, base, base);
    assert(ops[base] == FileOp::Allocate { first, stop });
    lemma_step(before, ops, around, base + 1, base + 1);
    assert(ops[base + 1] == FileOp::WritePages { start: offset, end });
    lemma_step(before, ops, around, base + 2, base + 2);
    assert(ops[base + 2] == FileOp::MarkWritten { first, stop });
    lemma_spared_end(before, ops, around, base + 3);
    let after = before.after_all(ops, around);
    let allocated = ready.after(ops[base], around);
    assert(allocated.bytes == ready.bytes);
    assert(allocated.overwritten(offset, end, around).bytes =~= ready.overwritten(
        offset,
        end,
        around,
    ).bytes) by {
        lemma_same_bytes(allocated, ready, offset, end, around);
    }
    lemma_wrote(before, ready, after, size, offset, end, around);
}

pub proof fn lemma_same_bytes(a: Content, b: Content, start: u64, end: u64, around: Surroundings)
    requires
        a.bytes == b.bytes,
    ensures
        a.overwritten(start, end, around).bytes == b.overwritten(start, end, around).bytes,
{
    let x = a.overwritten(start, end, around).bytes;
    let y = b.overwritten(start, end, around).bytes;
    assert(x.dom() =~= y.dom());
    assert forall|k: int| x.dom().contains(k) implies #[trigger] x[k] == y[k] by {
        assert(x[k] =~= y[k]);
    }
    assert(x =~= y);
}

/// What a chunk of an append wrote is read back, and the bytes before it are as
/// they were. The blocks up to `reached` were mapped before.
pub proof fn appended_bytes_are_read_back(
    append: AppendWrite,
    inode: Inode,
    reached: u32,
    before: Content,
    around: Surroundings,
)
    requires
        append.wf(),
        append.fits(inode),
        append.cursor < reached <= append.stop,
        before.wf(inode.desc.size),
        forall|b: int| append.cursor <= b < reached ==> #[trigger] before.mapped().contains(b),
        around.offset == append.offset,
        around.data.len() == append.end - append.offset,
    ensures
        wrote(
            before,
            before.after_all(chunk_steps(append, inode, reached), around),
            inode.desc.size,
            chunk_start(append.offset, append.cursor),
            chunk_end(append.end, reached),
            around,
        ),
{
    let ops = chunk_steps(append, inode, reached);
    let size = inode.desc.size;
    let start = chunk_start(append.offset, append.cursor) as u64;
    let end = chunk_end(append.end, reached) as u64;
    let resize = cache_resize(end, size);
    assert(ops.take(0) =~= seq![]);
    assert(start / PAGE_SIZE == append.cursor);
    assert(blocks_for(end) == reached);
    assert(size <= start < end);
    lemma_step(before, ops, around, 0, 0);
    lemma_grown(before, resize, around.disk);
    let ready = before.cache_resized(resize, around.disk);
    lemma_step(before, ops, around, 1, 1);
    lemma_step(before, ops, around, 2, 2);
    lemma_spared_end(before, ops, around, 3);
    let after = before.after_all(ops, around);
    lemma_wrote(before, ready, after, size, start, end, around);
}

/// Filling a range of one block with zeros changes no other byte.
proof fn lemma_zeroed(content: Content, size: u64, range: (int, int), around: Surroundings)
    requires
        content.wf(size),
        0 <= range.0 < range.1 <= u64::MAX,
        range.0 / PAGE_SIZE as int == (range.1 - 1) / PAGE_SIZE as int,
        range.0 / PAGE_SIZE as int <= u32::MAX,
    ensures
        ({
            let after = content.after(zero_step(range), around);
            &&& after.wf(size)
            &&& after.places == content.places
            &&& forall|p: int|
                0 <= p ==> #[trigger] after.byte(p) == (if range.0 <= p < range.1 {
                    0
                } else {
                    content.byte(p)
                })
        }),
{
    let after = content.after(zero_step(range), around);
    assert(after.bytes.dom() =~= content.bytes.dom());
}

proof fn lemma_zero_ranges(
    content: Content,
    size: u64,
    ranges: Seq<(int, int)>,
    around: Surroundings,
)
    requires
        content.wf(size),
        zero_steps(ranges).1 is None,
        forall|i: int|
            0 <= i < ranges.len() ==> {
                let range = #[trigger] ranges[i];
                &&& 0 <= range.0 < range.1 <= u64::MAX
                &&& range.0 / PAGE_SIZE as int == (range.1 - 1) / PAGE_SIZE as int
            },
    ensures
        ({
            let after = content.after_all(zero_steps(ranges).0, around);
            &&& after.wf(size)
            &&& after.places == content.places
            &&& forall|p: int|
                0 <= p ==> #[trigger] after.byte(p) == (if in_ranges(ranges, p) {
                    0
                } else {
                    content.byte(p)
                })
        }),
    decreases ranges.len(),
{
    if ranges.len() > 0 {
        let init = ranges.drop_last();
        let last = ranges.last();
        assert forall|i: int| 0 <= i < init.len() implies {
            let range = #[trigger] init[i];
            &&& 0 <= range.0 < range.1 <= u64::MAX
            &&& range.0 / PAGE_SIZE as int == (range.1 - 1) / PAGE_SIZE as int
        } by {
            assert(init[i] == ranges[i]);
        }
        lemma_zero_ranges(content, size, init, around);
        let middle = content.after_all(zero_steps(init).0, around);
        assert(ranges[ranges.len() - 1] == last);
        lemma_zeroed(middle, size, last, around);
        assert(zero_steps(ranges).0.drop_last() =~= zero_steps(init).0);
        let after = content.after_all(zero_steps(ranges).0, around);
        assert forall|p: int| 0 <= p implies #[trigger] after.byte(p) == (if in_ranges(ranges, p) {
            0
        } else {
            content.byte(p)
        }) by {
            if in_ranges(init, p) {
                let i = choose|i: int|
                    0 <= i < init.len() && (#[trigger] init[i]).0 <= p < init[i].1;
                assert(ranges[i] == init[i]);
            }
            if in_ranges(ranges, p) {
                let i = choose|i: int|
                    0 <= i < ranges.len() && (#[trigger] ranges[i]).0 <= p < ranges[i].1;
                assert(i < init.len() ==> init[i] == ranges[i]);
            }
            assert(middle.byte(p) == (if in_ranges(init, p) {
                0
            } else {
                content.byte(p)
            }));
        }
    } else {
        assert forall|p: int| !in_ranges(ranges, p) by {}
    }
}

/// The content after a hole was punched. With a journal, the whole blocks are freed
/// in chunks, after the steps in front.
pub open spec fn after_hole(
    before: Content,
    offset: u64,
    end: u64,
    journaled: bool,
    around: Surroundings,
) -> Content {
    let front = before.after_all(punch_front(offset, end, journaled).0, around);
    if journaled && has_full_blocks(offset, end) {
        front.punched(blocks_for(offset), (end / PAGE_SIZE) as int)
    } else {
        front
    }
}

/// Of the steps of a hole, those that fill zeros and those that free blocks matter.
proof fn lemma_hole_steps(
    before: Content,
    offset: u64,
    end: u64,
    journaled: bool,
    around: Surroundings,
)
    requires
        punch_front(offset, end, journaled).1 is None,
    ensures
        ({
            let middle = before.after_all(zero_steps(partial_ranges(offset, end)).0, around);
            after_hole(before, offset, end, journaled, around) == (if has_full_blocks(
                offset,
                end,
            ) {
                middle.punched(blocks_for(offset), (end / PAGE_SIZE) as int)
            } else {
                middle
            })
        }),
{
    let ops = punch_front(offset, end, journaled).0;
    let zeroes = zero_steps(partial_ranges(offset, end)).0;
    let n = zeroes.len() as int;
    let rest = ops.skip(n);
    assert(ops =~= zeroes + rest);
    assert(ops.take(n) =~= zeroes);
    if has_full_blocks(offset, end) && !journaled {
        assert(ops[n + 3] == FileOp::PunchRange {
            first: blocks_for(offset) as u32,
            stop: (end / PAGE_SIZE) as u32,
        });
        lemma_step(before, ops, around, n, n + 3);
        lemma_spared_end(before, ops, around, n + 4);
    } else {
        lemma_spared_end(before, ops, around, n);
    }
}

/// A hole reads as zeros, all other bytes are as they were, and its whole blocks
/// are free.
pub proof fn hole_reads_as_zeros(
    offset: u64,
    end: u64,
    journaled: bool,
    size: u64,
    before: Content,
    around: Surroundings,
)
    requires
        before.wf(size),
        offset < end,
        punch_front(offset, end, journaled).1 is None,
    ensures
        ({
            let first = blocks_for(offset);
            let stop = (end / PAGE_SIZE) as int;
            let after = after_hole(before, offset, end, journaled, around);
            &&& after.wf(size)
            &&& forall|p: int|
                0 <= p ==> #[trigger] after.byte(p) == (if offset <= p < end {
                    0
                } else {
                    before.byte(p)
                })
            &&& after.places == before.places.restrict(
                Set::new(|b: int| b < first || b >= stop),
            )
        }),
{
    let first = blocks_for(offset);
    let stop = (end / PAGE_SIZE) as int;
    let ranges = partial_ranges(offset, end);
    hole_is_covered(offset, end, 0);
    lemma_zero_ranges(before, size, ranges, around);
    let middle = before.after_all(zero_steps(ranges).0, around);
    let after = after_hole(before, offset, end, journaled, around);
    lemma_hole_steps(before, offset, end, journaled, around);
    assert(after.bytes.dom() =~= after.written);
    assert forall|p: int| 0 <= p implies #[trigger] after.byte(p) == (if offset <= p < end {
        0
    } else {
        before.byte(p)
    }) by {
        hole_is_covered(offset, end, p);
        let b = p / PAGE_SIZE as int;
        assert(first <= b < stop <==> inner_start(offset) <= p < block_start(end));
        assert(middle.byte(p) == (if in_ranges(ranges, p) {
            0
        } else {
            before.byte(p)
        }));
    }
}

/// Freeing a deleted inode frees all of its blocks, whether in one transaction or
/// in chunks that came to their end. Where no sectors are in use, none was mapped.
pub proof fn reclaim_frees_every_block(
    inode: Inode,
    journaled: bool,
    sectors: u64,
    chunks: Seq<FreedChunk>,
    before: Content,
    around: Surroundings,
)
    requires
        before.wf(inode.desc.size),
        forall|b: int| #[trigger] before.mapped().contains(b) ==> b >= 0,
        !(inode.payload is DataBacked) || sectors == 0 ==> before.mapped() == Set::<int>::empty(),
        if journaled && inode.payload is DataBacked && sectors > 0 {
            finished(FreeLoop { size: 0, keep: 0, end: FreeEnd::FreeInode }, chunks)
        } else {
            chunks.len() == 0
        },
    ensures
        before.after_all(reclaim_steps(inode, journaled, sectors), around).after_chunks(
            0,
            chunks,
        ).mapped() == Set::<int>::empty(),
{
    let ops = reclaim_steps(inode, journaled, sectors);
    let after = before.after_all(ops, around);
    lemma_only_frees(before, ops, around);
    if inode.payload is DataBacked && sectors > 0 {
        if journaled {
            lemma_chunks(after, 0, chunks);
            assert(after.after_chunks(0, chunks).mapped() =~= Set::<int>::empty());
        } else {
            assert(ops[5] == FileOp::Truncate { size: 0 });
            lemma_spared_end(before, ops, around, 6);
            assert(ops.take(6).drop_last() =~= ops.take(5));
            lemma_only_frees(before, ops.take(5), around);
            assert(after.mapped() =~= Set::<int>::empty());
        }
    } else {
        assert(after.mapped() =~= Set::<int>::empty());
    }
}

proof fn lemma_only_frees(content: Content, ops: Seq<FileOp>, around: Surroundings)
    requires
        forall|i: int| 0 <= i < ops.len() ==> !(#[trigger] ops[i] is Allocate),
    ensures
        content.after_all(ops, around).mapped().subset_of(content.mapped()),
    decreases ops.len(),
{
    if ops.len() > 0 {
        let init = ops.drop_last();
        assert forall|i: int| 0 <= i < init.len() implies !(#[trigger] init[i] is Allocate) by {
            assert(init[i] == ops[i]);
        }
        lemma_only_frees(content, init, around);
        assert(!(ops[ops.len() - 1] is Allocate));
    }
}

} // verus!
