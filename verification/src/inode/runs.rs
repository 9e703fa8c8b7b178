//! What whole operations on a file do to its content, over all their chunks, and
//! what is left of those that fail.

use vstd::prelude::*;
use vstd::utf8::{
    decode_utf8, encode_utf8, encode_utf8_decode_utf8, encode_utf8_valid_utf8, valid_utf8,
};

use crate::bytes::BLOCK_SIZE;
use crate::inode::content::{
    appended_bytes_are_read_back, filled_to, kept_in_place, lemma_grown, lemma_same_bytes,
    lemma_spared_end, lemma_step, lemma_wrote, spares_content, wrote, Content, Surroundings,
};
use crate::inode::desc::InodeDesc;
use crate::inode::falloc::{
    grown_to, prealloc_next, prealloc_run, preallocate_front, PreallocLoop,
};
use crate::inode::node::{Inode, PAGE_SIZE};
use crate::inode::ops::{cache_resize, FileOp};
use crate::inode::resize::blocks_for;
use crate::inode::symlink::block_target_steps;
use crate::inode::write::{
    append_start, chunk_end, chunk_start, chunk_steps, range_too_wide, rollback_steps,
    write_steps, AppendWrite, HoleFill,
};

verus! {

/// The content after the fills of a reservation. A fill that fails midway is one
/// that stopped there.
pub open spec fn reserved(
    content: Content,
    going: PreallocLoop,
    fills: Seq<HoleFill>,
    around: Surroundings,
) -> Content
    decreases fills.len(),
{
    if fills.len() == 0 {
        content
    } else {
        let front = reserved(content, going, fills.drop_last(), around);
        match prealloc_run(going, fills.drop_last()) {
            Ok((before, _)) => if before.cursor < before.stop {
                front.filled(before.cursor, before.stop, fills.last(), around.fresh)
            } else {
                front
            },
            Err(_) => front,
        }
    }
}

/// No fill came further than it was asked to.
pub open spec fn fills_stop(fills: Seq<HoleFill>, stop: u32) -> bool {
    forall|i: int| 0 <= i < fills.len() ==> filled_to(stop, #[trigger] fills[i]) <= stop
}

proof fn lemma_reserved(
    content: Content,
    going: PreallocLoop,
    fills: Seq<HoleFill>,
    around: Surroundings,
)
    requires
        fills_stop(fills, going.stop),
    ensures
        ({
            let after = reserved(content, going, fills, around);
            &&& after.bytes == content.bytes
            &&& after.written == content.written
            &&& kept_in_place(content, after)
            &&& forall|b: int| #[trigger]
                after.mapped().contains(b) ==> content.mapped().contains(b) || going.cursor <= b
                    < going.stop
            &&& prealloc_run(going, fills) matches Ok((next, _)) ==> {
                &&& next.stop == going.stop
                &&& going.cursor <= next.cursor
                &&& forall|b: int|
                    going.cursor <= b < next.cursor ==> #[trigger] after.mapped().contains(b)
            }
        }),
    decreases fills.len(),
{
    if fills.len() > 0 {
        let init = fills.drop_last();
        assert forall|i: int| 0 <= i < init.len() implies filled_to(
            going.stop,
            #[trigger] init[i],
        ) <= going.stop by {
            assert(init[i] == fills[i]);
        }
        lemma_reserved(content, going, init, around);
        assert(filled_to(going.stop, fills[fills.len() - 1]) <= going.stop);
        let front = reserved(content, going, init, around);
        let after = reserved(content, going, fills, around);
        let ran = prealloc_run(going, init);
        if ran is Ok && ran->Ok_0.0.cursor < ran->Ok_0.0.stop {
            let before = ran->Ok_0.0;
            let to = filled_to(before.stop, fills.last());
            assert(after == front.allocated(before.cursor as int, to as int, around.fresh));
            assert(kept_in_place(content, after)) by {
                assert forall|b: int| #[trigger] content.mapped().contains(b) implies
                    after.mapped().contains(b) && after.places[b] == content.places[b] by {
                    assert(front.mapped().contains(b));
                }
            }
            assert forall|b: int| #[trigger] after.mapped().contains(b) implies
                content.mapped().contains(b) || going.cursor <= b < going.stop by {
                if front.mapped().contains(b) {}
            }
            if let Ok((next, _)) = prealloc_next(before, fills.last()) {
                assert(next.cursor == (if to > before.cursor {
                    to
                } else {
                    before.cursor
                }));
                assert forall|b: int| going.cursor <= b < next.cursor implies
                    #[trigger] after.mapped().contains(b) by {
                    if b < before.cursor {
                        assert(front.mapped().contains(b));
                    }
                }
            }
        } else {
            assert(after == front);
        }
    }
}

/// Reserving space changes no byte. However far it came, the bytes of the file and
/// the blocks that are written are as they were, what was mapped is where it was, and
/// only blocks of the range were mapped, which read as zeros. When it came to its end,
/// every block of the range is mapped.
pub proof fn reservation_maps_the_range(
    inode: Inode,
    offset: u64,
    end: u64,
    grow_size: bool,
    max_credits: Option<usize>,
    fills: Seq<HoleFill>,
    before: Content,
    around: Surroundings,
)
    requires
        before.wf(inode.desc.size),
        offset < end,
        !range_too_wide(offset, end),
        fills_stop(fills, blocks_for(end) as u32),
    ensures
        ({
            let first = (offset / PAGE_SIZE) as int;
            let stop = blocks_for(end);
            let going = PreallocLoop {
                cursor: (offset / PAGE_SIZE) as u32,
                stop: blocks_for(end) as u32,
                grow_to: grown_to(inode.desc.size, end, grow_size),
                max_credits,
            };
            let after = reserved(
                before.after_all(preallocate_front(inode, offset, end, grow_size), around),
                going,
                fills,
                around,
            );
            &&& after.wf(inode.desc.size)
            &&& after.written == before.written
            &&& forall|p: int|
                0 <= p < inode.desc.size ==> #[trigger] after.byte(p) == before.byte(p)
            &&& forall|p: int|
                0 <= p && !before.mapped().contains(p / PAGE_SIZE as int)
                    ==> #[trigger] after.byte(p) == 0
            &&& kept_in_place(before, after)
            &&& forall|b: int| #[trigger]
                after.mapped().contains(b) ==> before.mapped().contains(b) || first <= b < stop
            &&& prealloc_run(going, fills) matches Ok((next, _)) ==> (next.cursor >= next.stop
                ==> forall|b: int| first <= b < stop ==> #[trigger] after.mapped().contains(b))
        }),
{
    let size = inode.desc.size;
    let front = preallocate_front(inode, offset, end, grow_size);
    let going = PreallocLoop {
        cursor: (offset / PAGE_SIZE) as u32,
        stop: blocks_for(end) as u32,
        grow_to: grown_to(size, end, grow_size),
        max_credits,
    };
    let opened = before.after_all(front, around);
    assert(front.take(0) =~= seq![]);
    if going.grow_to is Some {
        let resize = cache_resize(end, size);
        assert(front[0] == FileOp::ResizeCache(resize));
        lemma_step(before, front, around, 0, 0);
        lemma_spared_end(before, front, around, 1);
        lemma_grown(before, resize, around.disk);
        assert(opened.bytes.dom() =~= before.bytes.dom());
    } else {
        lemma_spared_end(before, front, around, 0);
    }
    assert(opened.written == before.written && opened.places == before.places);
    lemma_reserved(opened, going, fills, around);
    let after = reserved(opened, going, fills, around);
    assert forall|p: int| 0 <= p < size implies #[trigger] after.byte(p) == before.byte(p) by {
        assert(after.byte(p) == opened.byte(p));
    }
    assert forall|p: int| 0 <= p && !before.mapped().contains(p / PAGE_SIZE as int) implies
        #[trigger] after.byte(p) == 0 by {
        assert(!before.written.contains(p / PAGE_SIZE as int));
    }
}

/// An append with its file, as far as it came.
pub struct AppendState {
    pub append: AppendWrite,
    pub size: u64,
    pub content: Content,
}

/// The inode with another size.
pub open spec fn with_size(inode: Inode, size: u64) -> Inode {
    Inode { desc: InodeDesc { size, ..inode.desc }, ..inode }
}

/// An append after one fill, with the chunk that it led to written.
pub open spec fn append_step(
    inode: Inode,
    state: AppendState,
    fill: HoleFill,
    around: Surroundings,
) -> AppendState {
    let append = state.append;
    let reached = filled_to(append.stop, fill);
    if append.cursor >= append.stop {
        state
    } else {
        let content = state.content.filled(append.cursor, append.stop, fill, around.fresh);
        if reached <= append.cursor {
            AppendState { content, ..state }
        } else {
            AppendState {
                append: AppendWrite {
                    cursor: reached,
                    written: (chunk_end(append.end, reached) - append.offset) as u64,
                    ..append
                },
                size: chunk_end(append.end, reached) as u64,
                content: content.after_all(
                    chunk_steps(append, with_size(inode, state.size), reached),
                    around,
                ),
            }
        }
    }
}

/// An append after fills, with the chunks that they led to written.
pub open spec fn append_run(
    inode: Inode,
    state: AppendState,
    fills: Seq<HoleFill>,
    around: Surroundings,
) -> AppendState
    decreases fills.len(),
{
    if fills.len() == 0 {
        state
    } else {
        append_step(
            inode,
            append_run(inode, state, fills.drop_last(), around),
            fills.last(),
            around,
        )
    }
}

/// The content of a file of `size` bytes, when `n` bytes of an append at `offset` were
/// written: they are read back, and the rest of the file is as it was.
pub open spec fn appended(
    before: Content,
    after: Content,
    size: u64,
    offset: u64,
    n: u64,
    around: Surroundings,
) -> bool {
    if n > 0 {
        wrote(before, after, size, offset as int, offset + n, around)
    } else {
        &&& after.wf(size)
        &&& after.bytes == before.bytes
        &&& after.written == before.written
        &&& kept_in_place(before, after)
    }
}

/// What holds of an append at every chunk.
pub open spec fn append_holds(
    inode: Inode,
    first: AppendWrite,
    before: Content,
    state: AppendState,
    around: Surroundings,
) -> bool {
    let size = inode.desc.size;
    &&& state.append.wf()
    &&& state.append.offset == first.offset
    &&& state.append.end == first.end
    &&& state.append.stop == first.stop
    &&& state.append.cursor <= first.stop
    &&& state.size == (if state.append.written > 0 {
        (first.offset + state.append.written) as u64
    } else {
        size
    })
    &&& state.content.wf(state.size)
    &&& appended(before, state.content, size, first.offset, state.append.written, around)
}

proof fn lemma_append_step(
    inode: Inode,
    first: AppendWrite,
    before: Content,
    state: AppendState,
    fill: HoleFill,
    around: Surroundings,
)
    requires
        inode.payload is DataBacked,
        before.wf(inode.desc.size),
        inode.desc.size <= first.offset,
        append_holds(inode, first, before, state, around),
        filled_to(first.stop, fill) <= first.stop,
        around.offset == first.offset,
        around.data.len() == first.end - first.offset,
    ensures
        append_holds(inode, first, before, append_step(inode, state, fill, around), around),
{
    let append = state.append;
    let size = inode.desc.size;
    let reached = filled_to(append.stop, fill);
    if append.cursor < append.stop {
        let mapped = state.content.filled(append.cursor, append.stop, fill, around.fresh);
        assert(mapped.bytes == state.content.bytes);
        assert(mapped.wf(state.size));
        assert forall|p: int| #[trigger] mapped.byte(p) == state.content.byte(p) by {}
        assert(kept_in_place(before, mapped));
        if reached > append.cursor {
            let file = with_size(inode, state.size);
            let start = chunk_start(append.offset, append.cursor);
            let end = chunk_end(append.end, reached);
            appended_bytes_are_read_back(append, file, reached, mapped, around);
            let next = append_step(inode, state, fill, around);
            let after = next.content;
            assert(append.written > 0 ==> start == append.offset + append.written);
            assert(append.written == 0 ==> start == append.offset);
            assert(end > append.offset);
            assert forall|p: int| 0 <= p && (p < size || p < end) implies #[trigger] after.byte(p)
                == (if first.offset <= p < end {
                around.data[p - around.offset]
            } else if p < size {
                before.byte(p)
            } else {
                0
            }) by {
                assert(mapped.byte(p) == state.content.byte(p));
            }
            assert forall|b: int|
                first.offset as int / PAGE_SIZE as int <= b < blocks_for(end as u64)
                    implies #[trigger] after.written.contains(b) by {
                if b < append.cursor {
                    assert(append.written > 0);
                    assert(blocks_for((first.offset + append.written) as u64) == append.cursor);
                    assert(state.content.written.contains(b));
                } else {
                    assert(start / PAGE_SIZE as int == append.cursor);
                }
            }
            assert(wrote(before, after, size, first.offset as int, end, around));
        } else {
            assert(appended(before, mapped, size, first.offset, append.written, around));
        }
    }
}

proof fn lemma_append_run(
    inode: Inode,
    first: AppendWrite,
    before: Content,
    state: AppendState,
    fills: Seq<HoleFill>,
    around: Surroundings,
)
    requires
        inode.payload is DataBacked,
        before.wf(inode.desc.size),
        inode.desc.size <= first.offset,
        append_holds(inode, first, before, state, around),
        fills_stop(fills, first.stop),
        around.offset == first.offset,
        around.data.len() == first.end - first.offset,
    ensures
        append_holds(inode, first, before, append_run(inode, state, fills, around), around),
    decreases fills.len(),
{
    if fills.len() > 0 {
        let init = fills.drop_last();
        assert forall|i: int| 0 <= i < init.len() implies filled_to(
            first.stop,
            #[trigger] init[i],
        ) <= first.stop by {
            assert(init[i] == fills[i]);
        }
        lemma_append_run(inode, first, before, state, init, around);
        assert(filled_to(first.stop, fills[fills.len() - 1]) <= first.stop);
        lemma_append_step(
            inode,
            first,
            before,
            append_run(inode, state, init, around),
            fills.last(),
            around,
        );
    }
}

/// What an append wrote is read back, over all its chunks, and the rest of the file is
/// as it was. The size ends where what was written does. When it came to its end, all
/// was written.
pub proof fn whole_append_is_read_back(
    inode: Inode,
    offset: u64,
    end: u64,
    max_credits: usize,
    max_file_size: u64,
    fills: Seq<HoleFill>,
    before: Content,
    around: Surroundings,
)
    requires
        inode.payload is DataBacked,
        before.wf(inode.desc.size),
        inode.desc.size <= offset < end,
        !range_too_wide(offset, end),
        fills_stop(fills, blocks_for(end) as u32),
        around.offset == offset,
        around.data.len() == end - offset,
    ensures
        ({
            let start = AppendState {
                append: append_start(offset, end, max_credits, max_file_size),
                size: inode.desc.size,
                content: before,
            };
            let done = append_run(inode, start, fills, around);
            let n = done.append.written;
            &&& appended(before, done.content, inode.desc.size, offset, n, around)
            &&& done.size == (if n > 0 {
                (offset + n) as u64
            } else {
                inode.desc.size
            })
            &&& done.append.cursor >= done.append.stop ==> n == end - offset
        }),
{
    let first = append_start(offset, end, max_credits, max_file_size);
    let start = AppendState { append: first, size: inode.desc.size, content: before };
    assert(append_holds(inode, first, before, start, around));
    lemma_append_run(inode, first, before, start, fills, around);
}

/// The lesser of two numbers.
pub open spec fn lesser(a: int, b: int) -> int {
    if a < b {
        a
    } else {
        b
    }
}

/// The content after a step failed halfway: it came no further than to `at`, a block or
/// a byte.
pub open spec fn after_part(
    content: Content,
    op: FileOp,
    around: Surroundings,
    at: u64,
) -> Content {
    match op {
        FileOp::Allocate { first, stop } | FileOp::AllocateChunk { first, stop } => {
            content.allocated(first as int, lesser(stop as int, at as int), around.fresh)
        },
        FileOp::WritePages { start, end } => if start < at {
            content.overwritten(start, lesser(end as int, at as int) as u64, around)
        } else {
            content
        },
        FileOp::MarkWritten { first, stop } => Content {
            written: content.written.union(
                Set::new(|b: int| first <= b < lesser(stop as int, at as int)),
            ),
            ..content
        },
        _ => content,
    }
}

/// Undoing a write cuts off what lies behind the end of the file, and changes no byte
/// before it.
pub proof fn rollback_cuts_off_the_rest(
    inode: Inode,
    end: u64,
    content: Content,
    around: Surroundings,
)
    requires
        inode.payload is DataBacked,
        end > inode.desc.size,
        blocks_for(end) <= u32::MAX,
        content.bytes.dom().subset_of(content.mapped()),
    ensures
        ({
            let after = content.after_all(rollback_steps(inode, end), around);
            &&& forall|p: int|
                0 <= p ==> #[trigger] after.byte(p) == (if p < inode.desc.size {
                    content.byte(p)
                } else {
                    0
                })
            &&& after.places == content.places.restrict(
                Set::new(|b: int| b < blocks_for(inode.desc.size)),
            )
        }),
{
    let size = inode.desc.size;
    let ops = rollback_steps(inode, end);
    let resize = cache_resize(size, end);
    assert(ops.take(0) =~= seq![]);
    assert(ops =~= seq![FileOp::ResizeCache(resize), FileOp::Truncate { size }]);
    lemma_step(content, ops, around, 0, 0);
    lemma_step(content, ops, around, 1, 1);
    assert(ops.take(2) =~= ops);
    let after = content.after_all(ops, around);
    assert(after == content.cache_resized(resize, around.disk).truncated(blocks_for(size)));
    assert(after.places =~= content.places.restrict(Set::new(|b: int| b < blocks_for(size))));
    assert forall|p: int| 0 <= p implies #[trigger] after.byte(p) == (if p < size {
        content.byte(p)
    } else {
        0
    }) by {
        let b = p / PAGE_SIZE as int;
        if p < size {
            assert(b < blocks_for(size));
        } else if b < blocks_for(size) {
            assert(b == size / PAGE_SIZE);
        }
    }
}

/// The content after a write failed at the step `done`, and was undone.
pub open spec fn after_failed_write(
    inode: Inode,
    offset: u64,
    end: u64,
    done: int,
    at: u64,
    before: Content,
    around: Surroundings,
) -> Content {
    let steps = write_steps(inode, offset, end);
    after_part(before.after_all(steps.take(done), around), steps[done], around, at).after_all(
        rollback_steps(inode, end),
        around,
    )
}

/// A write that fails in one transaction is undone, at whatever step it fails and
/// however far that step came: no block behind the old end is mapped, and the bytes
/// before it that the write does not cover are as they were. Those that it does cover
/// are so too, unless it came to copying bytes, and are then the old or the new ones.
pub proof fn failed_write_is_undone(
    inode: Inode,
    offset: u64,
    end: u64,
    done: int,
    at: u64,
    before: Content,
    around: Surroundings,
)
    requires
        inode.payload is DataBacked,
        before.wf(inode.desc.size),
        offset < end,
        end > inode.desc.size,
        !range_too_wide(offset, end),
        0 <= done < write_steps(inode, offset, end).len(),
        around.offset == offset,
        around.data.len() == end - offset,
    ensures
        ({
            let after = after_failed_write(inode, offset, end, done, at, before, around);
            let copying = write_steps(inode, offset, end).take(done + 1).contains(
                FileOp::WritePages { start: offset, end },
            );
            &&& forall|p: int|
                0 <= p < inode.desc.size && !(copying && offset <= p < end)
                    ==> #[trigger] after.byte(p) == before.byte(p)
            &&& forall|p: int|
                offset <= p < inode.desc.size ==> #[trigger] after.byte(p) == before.byte(p)
                    || after.byte(p) == around.data[p - offset]
            &&& forall|p: int| inode.desc.size <= p ==> #[trigger] after.byte(p) == 0
            &&& forall|b: int| #[trigger]
                after.mapped().contains(b) ==> b < blocks_for(inode.desc.size)
        }),
{
    let steps = write_steps(inode, offset, end);
    let size = inode.desc.size;
    let first = (offset / PAGE_SIZE) as u32;
    let stop = blocks_for(end) as u32;
    let resize = cache_resize(end, size);
    let head = steps.take(done + 1);
    assert(steps.take(0) =~= seq![]);
    assert(steps[0] == FileOp::ResizeCache(resize));
    assert(steps[1] == FileOp::Allocate { first, stop });
    assert(steps[2] == FileOp::WritePages { start: offset, end });
    assert(steps[3] == FileOp::MarkWritten { first, stop });
    let copying = head.contains(FileOp::WritePages { start: offset, end });
    if done >= 2 {
        assert(head[2] == FileOp::WritePages { start: offset, end });
    }
    lemma_grown(before, resize, around.disk);
    let grown = before.cache_resized(resize, around.disk);
    let allocated = grown.allocated(first as int, stop as int, around.fresh);
    let copied = allocated.overwritten(offset, end, around);
    let begun = before.after_all(steps.take(done), around);
    let failed = after_part(begun, steps[done], around, at);
    lemma_step(before, steps, around, 0, 0);
    lemma_step(before, steps, around, 1, 1);
    lemma_step(before, steps, around, 2, 2);
    lemma_step(before, steps, around, 3, 3);
    if done > 4 {
        let part = steps.take(done);
        assert forall|i: int| 4 <= i < part.len() implies spares_content(#[trigger] part[i]) by {
            assert(part[i] == steps[i]);
        }
        lemma_spared_end(before, part, around, 4);
        assert(part.take(4) =~= steps.take(4));
    }
    if done == 2 && offset < at {
        let to = lesser(end as int, at as int) as u64;
        assert(failed == allocated.overwritten(offset, to, around));
        lemma_copied(allocated, offset, to, around);
    }
    lemma_copied(allocated, offset, end, around);
    assert(done >= 3 ==> failed.bytes == copied.bytes && failed.places == copied.places);
    assert forall|p: int| 0 <= p < size implies (#[trigger] failed.byte(p) == before.byte(p) || (
    offset <= p < end && copying && failed.byte(p) == around.data[p - offset])) by {
        assert(grown.byte(p) == before.byte(p));
        assert(allocated.byte(p) == grown.byte(p));
        assert(copied.byte(p) == (if offset <= p < end {
            around.data[p - offset]
        } else {
            allocated.byte(p)
        }));
    }
    assert(failed.bytes.dom().subset_of(failed.mapped()));
    rollback_cuts_off_the_rest(inode, end, failed, around);
    let after = after_failed_write(inode, offset, end, done, at, before, around);
    assert forall|p: int| 0 <= p < size implies #[trigger] after.byte(p) == failed.byte(p) by {}
}

/// Copying bytes into the page cache changes those bytes alone.
proof fn lemma_copied(content: Content, start: u64, end: u64, around: Surroundings)
    ensures
        ({
            let after = content.overwritten(start, end, around);
            &&& forall|p: int|
                0 <= p ==> #[trigger] after.byte(p) == (if start <= p < end {
                    around.data[p - around.offset]
                } else {
                    content.byte(p)
                })
            &&& forall|b: int| #[trigger]
                after.bytes.dom().contains(b) ==> content.bytes.dom().contains(b) || start
                    / PAGE_SIZE <= b < blocks_for(end)
            &&& after.places == content.places
            &&& after.written == content.written
        }),
{
    let after = content.overwritten(start, end, around);
    assert forall|p: int| 0 <= p implies #[trigger] after.byte(p) == (if start <= p < end {
        around.data[p - around.offset]
    } else {
        content.byte(p)
    }) by {
        let b = p / PAGE_SIZE as int;
        assert(b * PAGE_SIZE + p % PAGE_SIZE as int == p);
        if start <= p < end {
            assert(start / PAGE_SIZE <= b < blocks_for(end));
        }
    }
}

/// The content after a chunk of an append failed, and was undone: while blocks were
/// mapped for it, where `done` is not given, or else at the step `done`.
pub open spec fn after_failed_chunk(
    append: AppendWrite,
    inode: Inode,
    reached: u32,
    done: Option<int>,
    at: u64,
    before: Content,
    around: Surroundings,
) -> Content {
    let steps = chunk_steps(append, inode, reached);
    let request = FileOp::AllocateChunk { first: append.cursor, stop: append.stop };
    let filled = before.allocated(append.cursor as int, reached as int, around.fresh);
    let failed = match done {
        None => after_part(before, request, around, at),
        Some(i) => after_part(filled.after_all(steps.take(i), around), steps[i], around, at),
    };
    failed.after_all(rollback_steps(inode, append.end), around)
}

/// A chunk of an append that fails is undone, at whatever step it fails and however far
/// that step came: the bytes of the file are as they were before the chunk, and no block
/// behind its end is mapped.
pub proof fn failed_chunk_is_undone(
    append: AppendWrite,
    inode: Inode,
    reached: u32,
    done: Option<int>,
    at: u64,
    before: Content,
    around: Surroundings,
)
    requires
        append.wf(),
        append.fits(inode),
        append.cursor < reached <= append.stop,
        before.wf(inode.desc.size),
        done matches Some(i) ==> 0 <= i < chunk_steps(append, inode, reached).len(),
        around.offset == append.offset,
        around.data.len() == append.end - append.offset,
    ensures
        ({
            let after = after_failed_chunk(append, inode, reached, done, at, before, around);
            &&& forall|p: int|
                0 <= p ==> #[trigger] after.byte(p) == (if p < inode.desc.size {
                    before.byte(p)
                } else {
                    0
                })
            &&& forall|b: int| #[trigger]
                after.mapped().contains(b) ==> b < blocks_for(inode.desc.size)
        }),
{
    let steps = chunk_steps(append, inode, reached);
    let size = inode.desc.size;
    let request = FileOp::AllocateChunk { first: append.cursor, stop: append.stop };
    let filled = before.allocated(append.cursor as int, reached as int, around.fresh);
    let start = chunk_start(append.offset, append.cursor) as u64;
    let end = chunk_end(append.end, reached) as u64;
    let resize = cache_resize(end, size);
    assert(start / PAGE_SIZE == append.cursor);
    assert(blocks_for(end) == reached);
    assert(size <= start < end);
    assert(filled.wf(size));
    lemma_grown(filled, resize, around.disk);
    let grown = filled.cache_resized(resize, around.disk);
    let copied = grown.overwritten(start, end, around);
    lemma_copied(grown, start, end, around);
    assert(steps.take(0) =~= seq![]);
    assert(steps[0] == FileOp::ResizeCache(resize));
    assert(steps[1] == FileOp::WritePages { start, end });
    assert(steps[2] == FileOp::MarkWritten { first: append.cursor, stop: reached });
    lemma_step(filled, steps, around, 0, 0);
    lemma_step(filled, steps, around, 1, 1);
    lemma_step(filled, steps, around, 2, 2);
    let failed = match done {
        None => after_part(before, request, around, at),
        Some(i) => after_part(filled.after_all(steps.take(i), around), steps[i], around, at),
    };
    if let Some(i) = done {
        if i > 3 {
            let part = steps.take(i);
            assert forall|k: int| 3 <= k < part.len() implies spares_content(
                #[trigger] part[k],
            ) by {
                assert(part[k] == steps[k]);
            }
            lemma_spared_end(filled, part, around, 3);
            assert(part.take(3) =~= steps.take(3));
        }
        if i == 1 && start < at {
            let to = lesser(end as int, at as int) as u64;
            assert(failed == grown.overwritten(start, to, around));
            lemma_copied(grown, start, to, around);
        }
        assert(i >= 2 ==> failed.bytes == copied.bytes && failed.places == copied.places);
    }
    assert forall|p: int| 0 <= p < size implies #[trigger] failed.byte(p) == before.byte(p) by {
        assert(filled.byte(p) == before.byte(p));
        assert(grown.byte(p) == filled.byte(p));
        assert(copied.byte(p) == grown.byte(p));
    }
    assert(failed.bytes.dom().subset_of(failed.mapped()));
    rollback_cuts_off_the_rest(inode, append.end, failed, around);
    let after = after_failed_chunk(append, inode, reached, done, at, before, around);
    assert(after == failed.after_all(rollback_steps(inode, append.end), around));
    assert forall|p: int| 0 <= p implies #[trigger] after.byte(p) == (if p < size {
        before.byte(p)
    } else {
        0
    }) by {
        assert(p < size ==> failed.byte(p) == before.byte(p));
    }
}

/// A target that was written into a data block is read back from it: the first bytes of
/// the file are the target's, as many as the size says, and its block is written.
pub proof fn block_target_is_read_back(
    inode: Inode,
    target: Seq<char>,
    before: Content,
    around: Surroundings,
)
    requires
        before.wf(inode.desc.size),
        0 < encode_utf8(target).len() < BLOCK_SIZE,
        around.offset == 0,
        around.data == encode_utf8(target),
    ensures
        ({
            let bytes = encode_utf8(target);
            let after = before.after_all(
                block_target_steps(inode, bytes.len() as u64),
                around,
            );
            let read = Seq::new(bytes.len(), |p: int| after.byte(p));
            &&& wrote(before, after, inode.desc.size, 0, bytes.len() as int, around)
            &&& read == bytes
            &&& valid_utf8(read)
            &&& decode_utf8(read) == target
        }),
{
    let bytes = encode_utf8(target);
    let len = bytes.len() as u64;
    let size = inode.desc.size;
    let ops = block_target_steps(inode, len);
    let resize = cache_resize(len, size);
    let base: int = if len > size {
        1
    } else {
        0
    };
    assert(ops.take(0) =~= seq![]);
    let ready = before.after_all(ops.take(base), around);
    if len > size {
        assert(ops[0] == FileOp::ResizeCache(resize));
        lemma_step(before, ops, around, 0, 0);
        lemma_grown(before, resize, around.disk);
    }
    lemma_step(before, ops, around, base, base);
    assert(ops[base] == FileOp::Allocate { first: 0, stop: 1 });
    lemma_step(before, ops, around, base + 1, base + 1);
    assert(ops[base + 1] == FileOp::WritePages { start: 0, end: len });
    lemma_step(before, ops, around, base + 2, base + 2);
    assert(ops[base + 2] == FileOp::MarkWritten { first: 0, stop: 1 });
    lemma_spared_end(before, ops, around, base + 3);
    let after = before.after_all(ops, around);
    let allocated = ready.after(ops[base], around);
    lemma_same_bytes(allocated, ready, 0, len, around);
    assert(blocks_for(len) == 1);
    lemma_wrote(before, ready, after, size, 0, len, around);
    let read = Seq::new(bytes.len(), |p: int| after.byte(p));
    assert forall|p: int| 0 <= p < read.len() implies #[trigger] read[p] == bytes[p] by {
        assert(after.byte(p) == around.data[p]);
    }
    assert(read =~= bytes);
    encode_utf8_valid_utf8(target);
    encode_utf8_decode_utf8(target);
}

} // verus!
