//! What symbolic links are, told by their targets, and what syncs and changes of
//! attributes do.

use vstd::prelude::*;
use vstd::utf8::encode_utf8;

use crate::error::Error;
use crate::inode::desc::{InodeDesc, InodeType};
use crate::inode::effects::{lemma_stamped_after, stamped_now};
use crate::inode::node::{ExtentSnapshot, Inode, SyncScope};
use crate::inode::ops::{after_ops, lemma_size_after, FileOp, Reserve};
use crate::inode::symlink::{inline_target_round_trips, LinkPlan, LinkRead};
use crate::inode::time::Duration;
use crate::journal::tid::Tid;

verus! {

/// Only symlinks have targets, and a target is shorter than a block. One of less
/// than 60 bytes is kept in the block area, a longer one in a data block.
pub proof fn targets_are_sorted(inode: Inode, target: &str, r: Result<LinkPlan, Error>)
    requires
        call_ensures(Inode::write_link, (&inode, target), r),
    ensures
        inode.desc.type_ != InodeType::SymLink <==> r == Err::<LinkPlan, Error>(Error::NotSymlink),
        inode.desc.type_ == InodeType::SymLink && encode_utf8(target@).len() >= 4096 <==> r
            == Err::<LinkPlan, Error>(Error::TargetTooLong),
        r is Ok <==> inode.desc.type_ == InodeType::SymLink && encode_utf8(target@).len() < 4096,
        r is Ok ==> (r->Ok_0 is Inline <==> encode_utf8(target@).len() < 60),
        // The data block of the target before is freed, and nothing else is done.
        r matches Ok(LinkPlan::Inline(ops)) ==> {
            &&& inode.payload is DataBacked <==> ops@.len() > 0
            &&& forall|i: int| 0 <= i < ops@.len() ==> #[trigger] ops@[i] == (FileOp::Truncate {
                size: 0,
            })
        },
{
}

/// A target in a data block is written to its beginning, and the size of the link
/// says where it ends. If that fails, the size stays, and a block that was mapped
/// behind it is freed.
pub proof fn block_targets_take_effect(
    inode: Inode,
    target: &str,
    ops: Vec<FileOp>,
    rollback: Vec<FileOp>,
    switched: Inode,
    now: Duration,
    tid: Option<Tid>,
    seen: Seq<ExtentSnapshot>,
)
    requires
        call_ensures(
            Inode::write_link,
            (&inode, target),
            Ok::<LinkPlan, Error>(LinkPlan::Block { ops, rollback }),
        ),
        switched.payload is DataBacked,
        switched.desc.size == inode.desc.size,
    ensures
        ({
            let len = encode_utf8(target@).len();
            let after = after_ops(switched, ops@, now, tid, seen);
            &&& after.desc.size == len
            &&& stamped_now(after, now)
            &&& exists|i: int|
                0 <= i < ops@.len() && #[trigger] ops@[i] == (FileOp::WritePages {
                    start: 0,
                    end: len as u64,
                })
            &&& exists|i: int|
                0 <= i < ops@.len() && #[trigger] ops@[i] == (FileOp::Allocate {
                    first: 0,
                    stop: 1,
                })
            &&& exists|i: int|
                0 <= i < ops@.len() && #[trigger] ops@[i] == (FileOp::MarkWritten {
                    first: 0,
                    stop: 1,
                })
            &&& forall|i: int|
                0 <= i < rollback@.len() ==> rollback@[i] == (FileOp::Truncate {
                    size: inode.desc.size,
                }) || #[trigger] rollback@[i] is ResizeCache && rollback@[i]->ResizeCache_0.new
                    == inode.desc.size
            &&& len > inode.desc.size ==> rollback@.len() > 0 && rollback@.last() == (
            FileOp::Truncate { size: inode.desc.size })
        }),
{
    let len = encode_utf8(target@).len();
    let steps = ops@;
    let k = if len > inode.desc.size {
        1int
    } else {
        0
    };
    assert(steps[k] == FileOp::Allocate { first: 0, stop: 1 });
    assert(steps[k + 1] == FileOp::WritePages { start: 0, end: len as u64 });
    assert(steps[k + 2] == FileOp::MarkWritten { first: 0, stop: 1 });
    assert(steps[k + 3] == FileOp::SetSize { size: len as u64 });
    assert(steps[k + 4] is StampTimes);
    lemma_size_after(switched, steps, now, tid, len as u64, seen);
    lemma_stamped_after(switched, steps, now, tid, seen);
}

/// A link that gets a data block keeps all else, and one that has it keeps that.
pub proof fn links_get_data_blocks(inode: &mut Inode)
    requires
        old(inode).wf(),
        old(inode).desc.type_ == InodeType::SymLink,
        call_ensures(Inode::switch_to_block, (inode,), ()),
    ensures
        final(inode).payload is DataBacked,
        old(inode).payload is DataBacked ==> *final(inode) == *old(inode),
        !(old(inode).payload is DataBacked) ==> final(inode).desc.flags.0 == old(
            inode,
        ).desc.flags.0 | 0x8_0000 && final(inode).dirty && final(inode).payload->npages == 0,
        final(inode).desc == (InodeDesc { flags: final(inode).desc.flags, ..old(inode).desc }),
        final(inode).sync_tid == old(inode).sync_tid,
        final(inode).datasync_tid == old(inode).datasync_tid,
        final(inode).ino == old(inode).ino,
{
}

/// A target that is kept in the block area is read back from there. The link has
/// its length as the size, no sectors and no extents, and its times are stamped;
/// the rest of the inode stays.
pub proof fn inline_targets_are_read_back(
    inode: &mut Inode,
    target: &str,
    now: Duration,
    r: Result<LinkRead, Error>,
    fast: bool,
)
    requires
        old(inode).wf(),
        old(inode).desc.type_ == InodeType::SymLink,
        encode_utf8(target@).len() < 60,
        now.wf(),
        call_ensures(Inode::keep_link_inline, (inode, target, now), ()),
        call_ensures(Inode::read_link, (&*final(inode),), r),
        call_ensures(Inode::is_fast_symlink, (&*final(inode),), fast),
    ensures
        r matches Ok(LinkRead::Text(text)) && text@ == target@,
        fast,
        final(inode).desc.size == encode_utf8(target@).len(),
        final(inode).desc.sector_count == 0,
        stamped_now(*final(inode), now),
        final(inode).desc.flags.0 & 0x8_0000 == 0,
        final(inode).desc.flags.0 | 0x8_0000 == old(inode).desc.flags.0 | 0x8_0000,
        final(inode).dirty,
        final(inode).desc.type_ == old(inode).desc.type_,
        final(inode).desc.perm == old(inode).desc.perm,
        final(inode).desc.uid == old(inode).desc.uid,
        final(inode).desc.gid == old(inode).desc.gid,
        final(inode).desc.link_count == old(inode).desc.link_count,
        final(inode).desc.atime == old(inode).desc.atime,
        final(inode).desc.crtime == old(inode).desc.crtime,
        final(inode).desc.dtime == old(inode).desc.dtime,
        final(inode).desc.generation == old(inode).desc.generation,
        final(inode).desc.file_acl == old(inode).desc.file_acl,
        final(inode).ino == old(inode).ino,
{
    inline_target_round_trips(*old(inode), final(inode).desc.block, target@, now);
    let flags = old(inode).desc.flags.0;
    assert((flags & !0x8_0000u32) & 0x8_0000u32 == 0 && (flags & !0x8_0000u32) | 0x8_0000u32
        == flags | 0x8_0000u32) by (bit_vector);
}

/// Only a symlink is read as a link. One with a data block gives as many bytes of
/// it as its size says; another one gives its text, if it is one.
pub proof fn links_are_read(inode: Inode, r: Result<LinkRead, Error>, fast: bool)
    requires
        inode.wf(),
        call_ensures(Inode::read_link, (&inode,), r),
        call_ensures(Inode::is_fast_symlink, (&inode,), fast),
    ensures
        inode.desc.type_ != InodeType::SymLink <==> r == Err::<LinkRead, Error>(Error::NotSymlink),
        inode.desc.type_ == InodeType::SymLink && inode.payload is DataBacked <==> r == Ok::<
            LinkRead,
            Error,
        >(LinkRead::Block { len: inode.desc.size }),
        r is Ok ==> (r->Ok_0 is Text <==> fast),
        r matches Err(e) ==> e == Error::NotSymlink || e == Error::TargetNotUtf8 && fast,
{
}

/// A sync writes the pages of a whole file, unless there are none, before it writes
/// the inode. The pages of a directory are left to the journal, if there is one.
pub proof fn syncs_write_all_pages(
    inode: Inode,
    journaled: bool,
    pages: Option<u64>,
    ops: Vec<FileOp>,
    meta: Vec<FileOp>,
)
    requires
        call_ensures(Inode::sync_data_pages, (&inode, journaled), pages),
        call_ensures(Inode::sync_data_and_meta, (&inode, journaled), ops),
        call_ensures(Inode::sync_metadata, (&inode,), meta),
    ensures
        inode.payload is DataBacked && inode.desc.size > 0 && !(inode.desc.type_ == InodeType::Dir
            && journaled) <==> pages is Some,
        pages matches Some(end) ==> end == inode.desc.size && ops@[0] == (FileOp::FlushPages {
            start: 0,
            end,
        }),
        pages is None ==> forall|i: int| 0 <= i < ops@.len() ==> !(#[trigger] ops@[i] is FlushPages),
        ops@.len() >= 2,
        ops@.last() is WriteBack,
        ops@[ops@.len() - 2] == FileOp::BeginOp(Reserve::Sync),
        meta@.len() == 2,
        meta@[0] == FileOp::BeginOp(Reserve::Sync),
        meta@[1] is WriteBack,
{
}

/// What a sync waits for: the transaction of its own write back, where there was
/// something to write; otherwise the last one that carried the inode, or for a data
/// sync the last one that carried what reading the data back needs.
pub proof fn syncs_wait(
    inode: Inode,
    scope: SyncScope,
    was_dirty: bool,
    op_tid: Option<Tid>,
    r: Option<Tid>,
)
    requires
        call_ensures(Inode::sync_wait_tid, (&inode, scope, was_dirty, op_tid), r),
    ensures
        was_dirty ==> r == op_tid,
        !was_dirty && scope == SyncScope::Full ==> r == inode.sync_tid,
        !was_dirty && scope == SyncScope::DataOnly ==> r == inode.datasync_tid,
{
}

/// With a journal a change of attributes goes into a transaction; without one the
/// inode waits for the next sync.
pub proof fn attributes_are_journaled(inode: Inode, journaled: bool, ops: Vec<FileOp>)
    requires
        call_ensures(Inode::journal_attr_change, (&inode, journaled), ops),
    ensures
        journaled ==> ops@.len() == 2 && ops@[0] == FileOp::BeginOp(Reserve::Setattr) && ops@[1]
            is WriteBack,
        !journaled ==> ops@.len() == 0,
{
}

/// Whether nothing but the permission bits, the owner, the group and the time of
/// the last change may differ.
pub open spec fn attributes_differ(before: Inode, after: Inode) -> bool {
    after == (Inode {
        desc: InodeDesc {
            perm: after.desc.perm,
            uid: after.desc.uid,
            gid: after.desc.gid,
            ctime: after.desc.ctime,
            ..before.desc
        },
        dirty: true,
        ..before
    })
}

/// A change of the permission bits takes the lower twelve bits of the mode, and is
/// a change of the inode at that time.
pub proof fn modes_are_set(inode: &mut Inode, mode: u16, now: Duration)
    requires
        call_ensures(Inode::set_mode, (inode, mode, now), ()),
    ensures
        final(inode).desc.perm.0 == mode % 0x1000,
        final(inode).desc.ctime == now,
        final(inode).desc.uid == old(inode).desc.uid,
        final(inode).desc.gid == old(inode).desc.gid,
        attributes_differ(*old(inode), *final(inode)),
{
}

/// A change of the owner is a change of the inode at that time.
pub proof fn owners_are_set(inode: &mut Inode, uid: u32, now: Duration)
    requires
        call_ensures(Inode::set_owner, (inode, uid, now), ()),
    ensures
        final(inode).desc.uid == uid,
        final(inode).desc.ctime == now,
        final(inode).desc.perm == old(inode).desc.perm,
        final(inode).desc.gid == old(inode).desc.gid,
        attributes_differ(*old(inode), *final(inode)),
{
}

/// A change of the group is a change of the inode at that time.
pub proof fn groups_are_set(inode: &mut Inode, gid: u32, now: Duration)
    requires
        call_ensures(Inode::set_group, (inode, gid, now), ()),
    ensures
        final(inode).desc.gid == gid,
        final(inode).desc.ctime == now,
        final(inode).desc.perm == old(inode).desc.perm,
        final(inode).desc.uid == old(inode).desc.uid,
        attributes_differ(*old(inode), *final(inode)),
{
}

/// Dropping links never wraps round: with fewer links than are dropped, none is
/// left. What was added is dropped again.
pub proof fn links_are_counted(inode: &mut Inode, delta: u16)
    requires
        call_ensures(Inode::dec_link_count, (inode, delta), ()),
    ensures
        final(inode).desc.link_count + delta == old(inode).desc.link_count || delta > old(
            inode,
        ).desc.link_count && final(inode).desc.link_count == 0,
        final(inode).dirty,
        final(inode).desc.size == old(inode).desc.size,
{
}

} // verus!
