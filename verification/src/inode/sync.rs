//! Bringing inodes to the disk, and what a sync waits for.
//!
//! The data is written before the inode that refers to it. With a journal, the
//! inode goes into a transaction, and the sync waits until that is committed.

use vstd::prelude::*;

use crate::inode::desc::InodeType;
use crate::inode::falloc::{preallocate_end, punch_last};
use crate::inode::node::{waited_for, ExtentSnapshot, Inode, SyncScope};
use crate::inode::ops::{after_ops, lemma_backed_after, FileOp, Reserve};
use crate::inode::resize::{last_steps, whole_resize, FreeEnd};
use crate::inode::time::Duration;
use crate::inode::write::{chunk_steps, cover_steps, write_steps, AppendWrite};
use crate::journal::tid::Tid;

verus! {

/// The bytes whose dirty pages a sync writes. The pages of a directory are left
/// to the journal, where there is one.
pub open spec fn synced_bytes(inode: Inode, journaled: bool) -> Option<u64> {
    if inode.desc.type_ == InodeType::Dir && journaled || inode.desc.size == 0 || !(
    inode.payload is DataBacked) {
        None
    } else {
        Some(inode.desc.size)
    }
}

/// The steps that write an inode back in a transaction of its own.
pub open spec fn metadata_steps(reserve: Reserve) -> Seq<FileOp> {
    seq![FileOp::BeginOp(reserve), FileOp::WriteBack]
}

/// The steps of a sync: the data comes first.
pub open spec fn sync_steps(inode: Inode, journaled: bool) -> Seq<FileOp> {
    (match synced_bytes(inode, journaled) {
        Some(end) => seq![FileOp::FlushPages { start: 0, end }],
        None => seq![],
    }) + metadata_steps(Reserve::Sync)
}

/// The steps after a change of attributes. Without a journal, the inode waits
/// for the next sync.
pub open spec fn attr_steps(journaled: bool) -> Seq<FileOp> {
    if journaled {
        metadata_steps(Reserve::Setattr)
    } else {
        seq![]
    }
}

impl Inode {
    /// The bytes whose dirty pages a sync writes.
    pub fn sync_data_pages(&self, journaled: bool) -> (r: Option<u64>)
        ensures
            r == synced_bytes(*self, journaled),
    {
        if self.desc.type_ == InodeType::Dir && journaled {
            return None;
        }
        if self.desc.size == 0 {
            return None;
        }
        if self.payload.is_data_backed() {
            Some(self.desc.size)
        } else {
            None
        }
    }

    /// The steps that write the inode back, without its data.
    pub fn sync_metadata(&self) -> (ops: Vec<FileOp>)
        ensures
            ops@ == metadata_steps(Reserve::Sync),
    {
        vec![FileOp::BeginOp(Reserve::Sync), FileOp::WriteBack]
    }

    /// The steps that write the data and then the inode. The caller waits then
    /// for the transaction that [`Inode::sync_wait_tid`] gives, if the sync is
    /// of this inode alone, and flushes the device.
    pub fn sync_data_and_meta(&self, journaled: bool) -> (ops: Vec<FileOp>)
        ensures
            ops@ == sync_steps(*self, journaled),
    {
        let mut ops: Vec<FileOp> = Vec::new();
        match self.sync_data_pages(journaled) {
            Some(end) => {
                ops.push(FileOp::FlushPages { start: 0, end });
            },
            None => {},
        }
        let mut rest = self.sync_metadata();
        ops.append(&mut rest);
        assert(ops@ =~= sync_steps(*self, journaled));
        ops
    }

    /// The steps after a change of attributes.
    pub fn journal_attr_change(&self, journaled: bool) -> (ops: Vec<FileOp>)
        ensures
            ops@ == attr_steps(journaled),
    {
        if journaled {
            vec![FileOp::BeginOp(Reserve::Setattr), FileOp::WriteBack]
        } else {
            let ops: Vec<FileOp> = Vec::new();
            assert(ops@ =~= seq![]);
            ops
        }
    }

    /// The transaction that a sync waits for: the one that the write back went
    /// into if the inode was dirty, or else the one that captured it last.
    pub fn sync_wait_tid(&self, scope: SyncScope, was_dirty: bool, op_tid: Option<Tid>) -> (r:
        Option<Tid>)
        ensures
            r == waited_for(*self, scope, was_dirty, op_tid),
    {
        if was_dirty {
            op_tid
        } else {
            match scope {
                SyncScope::DataOnly => self.datasync_tid,
                SyncScope::Full => self.sync_tid,
            }
        }
    }
}

/// A sync writes all the data of a file before the inode.
pub proof fn sync_writes_the_data_first(inode: Inode, journaled: bool)
    requires
        inode.wf(),
        inode.desc.type_ == InodeType::File,
        inode.desc.size > 0,
    ensures
        ({
            let ops = sync_steps(inode, journaled);
            &&& ops[0] == (FileOp::FlushPages { start: 0, end: inode.desc.size })
            &&& forall|i: int| 0 <= i < ops.len() && #[trigger] ops[i] is WriteBack ==> 0 < i
        }),
{
}

/// A sync of the data alone does not wait for a change of the attributes, and a
/// full sync does.
pub proof fn attribute_changes_are_not_data(
    before: Inode,
    changed: Inode,
    now: Duration,
    tid: Tid,
    op_tid: Option<Tid>,
    seen: Seq<ExtentSnapshot>,
)
    requires
        changed == (Inode { desc: changed.desc, dirty: true, ..before }),
    ensures
        ({
            let after = after_ops(changed, attr_steps(true), now, Some(tid), seen);
            &&& waited_for(after, SyncScope::DataOnly, false, op_tid) == before.datasync_tid
            &&& waited_for(after, SyncScope::Full, false, op_tid) == Some(tid)
        }),
{
    reveal_with_fuel(after_ops, 3);
    let ops = attr_steps(true);
    assert(ops.drop_last() =~= seq![ops[0]]);
    assert(seq![ops[0]].drop_last() =~= seq![]);
}

/// Syncing an inode that has no changes leaves it as it is: it goes into no
/// transaction, and a later sync waits for what it would have waited for before.
pub proof fn clean_sync_changes_nothing(
    inode: Inode,
    journaled: bool,
    now: Duration,
    tid: Option<Tid>,
    seen: Seq<ExtentSnapshot>,
)
    requires
        forall|i: int|
            0 <= i < sync_steps(inode, journaled).len() ==> !inode.unwritten(#[trigger] seen[i]),
    ensures
        after_ops(inode, sync_steps(inode, journaled), now, tid, seen) == inode,
{
    lemma_clean_steps(inode, sync_steps(inode, journaled), now, tid, seen);
}

proof fn lemma_clean_steps(
    inode: Inode,
    ops: Seq<FileOp>,
    now: Duration,
    tid: Option<Tid>,
    seen: Seq<ExtentSnapshot>,
)
    requires
        forall|i: int| 0 <= i < ops.len() ==> !inode.unwritten(#[trigger] seen[i]),
        forall|i: int|
            0 <= i < ops.len() ==> (#[trigger] ops[i] is FlushPages || ops[i] is BeginOp
                || ops[i] is WriteBack),
    ensures
        after_ops(inode, ops, now, tid, seen) == inode,
    decreases ops.len(),
{
    if ops.len() > 0 {
        let init = ops.drop_last();
        assert forall|i: int| 0 <= i < init.len() implies (#[trigger] init[i] is FlushPages
            || init[i] is BeginOp || init[i] is WriteBack) by {
            assert(init[i] == ops[i]);
        }
        lemma_clean_steps(inode, init, now, tid, seen);
        assert(ops[ops.len() - 1] == ops.last());
        assert(!inode.unwritten(seen[ops.len() - 1]));
    }
}

/// Whether a step changes what is written of the inode.
pub open spec fn changes_inode(op: FileOp) -> bool {
    op is SetSize || op is StampTimes || op is SetDeleted || op is ClearDeleted
}

/// Whether the step `i` writes back an inode that has changes: it had some from
/// the start, an earlier step changed it, or its extent tree has changed.
pub open spec fn writes_changes_at(
    inode: Inode,
    ops: Seq<FileOp>,
    seen: Seq<ExtentSnapshot>,
    i: int,
) -> bool {
    &&& 0 <= i < ops.len()
    &&& ops[i] == FileOp::WriteBack
    &&& {
        ||| inode.unwritten(seen[i])
        ||| exists|j: int| 0 <= j < i && changes_inode(#[trigger] ops[j])
    }
}

/// Whether steps note that the data needs their transaction, and write the inode,
/// which has changes, back into it.
pub open spec fn covers_data(inode: Inode, ops: Seq<FileOp>, seen: Seq<ExtentSnapshot>) -> bool {
    &&& exists|i: int| 0 <= i < ops.len() && #[trigger] ops[i] == FileOp::StampDatasync
    &&& exists|i: int| writes_changes_at(inode, ops, seen, i)
}

/// A change stays until it is written back.
proof fn lemma_changes_stay(
    inode: Inode,
    ops: Seq<FileOp>,
    now: Duration,
    tid: Tid,
    seen: Seq<ExtentSnapshot>,
)
    requires
        inode.dirty || exists|j: int| 0 <= j < ops.len() && changes_inode(#[trigger] ops[j]),
    ensures
        ({
            let after = after_ops(inode, ops, now, Some(tid), seen);
            after.dirty || after.sync_tid == Some(tid)
        }),
    decreases ops.len(),
{
    if ops.len() > 0 && !changes_inode(ops.last()) {
        let init = ops.drop_last();
        if !inode.dirty {
            let j = choose|j: int| 0 <= j < ops.len() && changes_inode(#[trigger] ops[j]);
            assert(init[j] == ops[j]);
        }
        lemma_changes_stay(inode, init, now, tid, seen);
    }
}

proof fn lemma_tids_after(
    inode: Inode,
    ops: Seq<FileOp>,
    now: Duration,
    tid: Tid,
    seen: Seq<ExtentSnapshot>,
)
    ensures
        ({
            let after = after_ops(inode, ops, now, Some(tid), seen);
            &&& (exists|i: int| 0 <= i < ops.len() && #[trigger] ops[i] == FileOp::StampDatasync)
                ==> after.datasync_tid == Some(tid)
            &&& (exists|i: int| writes_changes_at(inode, ops, seen, i)) ==> after.sync_tid == Some(
                tid,
            )
        }),
    decreases ops.len(),
{
    if ops.len() > 0 {
        let init = ops.drop_last();
        lemma_tids_after(inode, init, now, tid, seen);
        if exists|i: int| 0 <= i < ops.len() && #[trigger] ops[i] == FileOp::StampDatasync {
            let i = choose|i: int| 0 <= i < ops.len() && #[trigger] ops[i] == FileOp::StampDatasync;
            assert(i < init.len() ==> init[i] == ops[i]);
        }
        if exists|i: int| writes_changes_at(inode, ops, seen, i) {
            let i = choose|i: int| writes_changes_at(inode, ops, seen, i);
            let changed = exists|j: int| 0 <= j < i && changes_inode(#[trigger] ops[j]);
            if changed {
                let j = choose|j: int| 0 <= j < i && changes_inode(#[trigger] ops[j]);
                assert(init[j] == ops[j]);
            }
            if i < init.len() {
                assert(init[i] == ops[i]);
                assert(writes_changes_at(inode, init, seen, i));
            } else {
                if inode.dirty || changed {
                    lemma_changes_stay(inode, init, now, tid, seen);
                }
                lemma_backed_after(inode, init, now, Some(tid), seen);
            }
        }
    }
}

/// A sync waits for the transaction of the last change of the data, whatever its
/// scope.
pub proof fn data_changes_are_waited_for(
    inode: Inode,
    ops: Seq<FileOp>,
    now: Duration,
    tid: Tid,
    scope: SyncScope,
    op_tid: Option<Tid>,
    seen: Seq<ExtentSnapshot>,
)
    requires
        covers_data(inode, ops, seen),
    ensures
        waited_for(after_ops(inode, ops, now, Some(tid), seen), scope, false, op_tid) == Some(tid),
{
    lemma_tids_after(inode, ops, now, tid, seen);
}

/// With a journal, every operation that changes the data ends with steps for
/// which a sync waits: a write, each chunk of an append, a change of the size, a
/// reservation, and, where the extent tree has changed, the last chunk of a shrink
/// and of a hole.
pub proof fn data_operations_are_covered(
    inode: Inode,
    offset: u64,
    end: u64,
    new_size: u64,
    max_file_size: u64,
    grow_to: Option<u64>,
    append: AppendWrite,
    reached: u32,
    seen: Seq<ExtentSnapshot>,
)
    ensures
        covers_data(inode, write_steps(inode, offset, end) + cover_steps(true), seen),
        covers_data(inode, chunk_steps(append, inode, reached) + cover_steps(true), seen),
        whole_resize(inode, new_size, true, max_file_size).1 is None && new_size
            != inode.desc.size ==> covers_data(
            inode,
            whole_resize(inode, new_size, true, max_file_size).0,
            seen,
        ),
        covers_data(inode, preallocate_end(grow_to), seen),
        inode.unwritten(seen[1]) ==> covers_data(inode, last_steps(FreeEnd::Datasync), seen),
        inode.unwritten(seen[0]) ==> covers_data(
            inode,
            seq![FileOp::WriteBack] + punch_last(),
            seen,
        ),
{
    let write = write_steps(inode, offset, end) + cover_steps(true);
    assert(write[write.len() - 2] == FileOp::StampDatasync);
    assert(changes_inode(write[write.len() - 4]));
    assert(writes_changes_at(inode, write, seen, write.len() - 3));
    let chunk = chunk_steps(append, inode, reached) + cover_steps(true);
    assert(chunk[6] == FileOp::StampDatasync);
    assert(changes_inode(chunk[4]));
    assert(writes_changes_at(inode, chunk, seen, 5));
    let (resize, fault) = whole_resize(inode, new_size, true, max_file_size);
    if fault is None && new_size != inode.desc.size {
        let at = if new_size < inode.desc.size {
            resize.len() - 2
        } else {
            resize.len() - 1
        };
        assert(resize[at] == FileOp::StampDatasync);
        assert(changes_inode(resize[if new_size < inode.desc.size { 3 } else { 1 }]));
        assert(writes_changes_at(inode, resize, seen, at - 1));
    }
    let grown = preallocate_end(grow_to);
    assert(grown[grown.len() - 1] == FileOp::StampDatasync);
    assert(changes_inode(grown[grown.len() - 3]));
    assert(writes_changes_at(inode, grown, seen, grown.len() - 2));
    let last = last_steps(FreeEnd::Datasync);
    assert(last[2] == FileOp::StampDatasync);
    if inode.unwritten(seen[1]) {
        assert(writes_changes_at(inode, last, seen, 1));
    }
    let punch = seq![FileOp::WriteBack] + punch_last();
    assert(punch[2] == FileOp::StampDatasync);
    if inode.unwritten(seen[0]) {
        assert(writes_changes_at(inode, punch, seen, 0));
    }
}

} // verus!
