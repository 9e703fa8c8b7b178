//! How operations change blocks: through a handle on the open transaction they
//! capture a block with its newest content, and then overwrite parts of it.

use vstd::prelude::*;

use crate::bytes::{splice, zeros, BLOCK_SIZE};
use crate::error::Error;
use crate::journal::state::{captured_in, JournalState, PinnedFree};
use crate::journal::tid::{tid_next, Tid};
use crate::journal::transaction::{captured, Transaction};

verus! {

/// An operation's handle on a transaction. On a volume without a journal it
/// belongs to none, and does nothing.
#[derive(Clone, Copy, Debug, PartialEq, Eq, Structural)]
pub struct OpHandle {
    pub handle: Option<Tid>,
}

impl OpHandle {
    /// A handle on a volume without a journal.
    pub fn none() -> (h: Self)
        ensures
            h == (OpHandle { handle: None }),
    {
        OpHandle { handle: None }
    }

    /// The transaction that the handle belongs to.
    pub fn tid(&self) -> (r: Option<Tid>)
        ensures
            r == self.handle,
    {
        self.handle
    }
}

/// The permission to change one captured block. Without a journal it is inert.
#[derive(Clone, Copy, Debug, PartialEq, Eq, Structural)]
pub struct WriteAccess {
    pub live: Option<LiveAccess>,
}

/// Which block of which transaction may be changed.
#[derive(Clone, Copy, Debug, PartialEq, Eq, Structural)]
pub struct LiveAccess {
    pub tid: Tid,
    pub blocknr: u64,
}

impl WriteAccess {
    /// Whether a block was captured.
    pub fn is_live(&self) -> (r: bool)
        ensures
            r == (self.live is Some),
    {
        self.live.is_some()
    }
}

/// The access that a handle gets to a block.
pub open spec fn access_of(handle: OpHandle, blocknr: u64) -> WriteAccess {
    WriteAccess {
        live: match handle.handle {
            Some(tid) => Some(LiveAccess { tid, blocknr }),
            None => None,
        },
    }
}

/// What comes of the request to change a block.
#[derive(Clone, Copy, Debug, PartialEq, Eq, Structural)]
pub enum AccessStep {
    /// The block is captured.
    Ready(WriteAccess),
    /// The newest content is the one at home. It has to be read, and handed to
    /// [`JournalState::seed_write_access`].
    NeedsBlock,
}

/// What kind of block is freed.
#[derive(Clone, Copy, Debug, PartialEq, Eq, Structural)]
pub enum ForgetKind {
    /// Metadata, which older transactions may have in the log.
    Metadata,
    /// File data, which is not in the log.
    Data,
}

impl JournalState {
    /// Whether `tid` is the open transaction.
    pub open spec fn is_open(self, tid: Tid) -> bool {
        self.open_txn() matches Some(txn) && txn.tid == tid
    }

    /// Nothing but the open transaction differs from `other`.
    pub open spec fn only_open_differs(self, other: Self) -> bool {
        &&& self.running is Some <==> other.running is Some
        &&& self.locking is Some <==> other.locking is Some
        &&& self.committing == other.committing
        &&& self.same_log(other)
        &&& self.same_memory(other)
        &&& self.same_flags(other)
    }

    /// What opening a handle on a journal that is not aborted makes of the
    /// state `before`, and gives.
    pub open spec fn opened(self, before: Self, r: Option<OpHandle>) -> bool {
        if before.locking is Some {
            &&& r is None
            &&& self == before
        } else {
            &&& self.running is Some
            &&& r == Some(OpHandle { handle: Some(self.running->0.tid) })
            &&& self.locking is None
            &&& self.committing == before.committing
            &&& self.same_memory(before)
            &&& self.same_flags(before)
            &&& self.head == before.head
            &&& self.tail_block == before.tail_block
            &&& self.tail_tid == before.tail_tid
            &&& self.committed_tid == before.committed_tid
            &&& match before.running {
                Some(txn) => {
                    &&& self.running->0.tid == txn.tid
                    &&& self.running->0.captures == txn.captures
                    &&& self.running->0.revokes == txn.revokes
                    &&& self.running->0.ordered == txn.ordered
                    &&& self.running->0.nr_updates == txn.nr_updates + 1
                    &&& self.next_tid == before.next_tid
                },
                None => {
                    &&& self.running->0.tid == before.next_tid
                    &&& self.running->0.images().len() == 0
                    &&& self.running->0.revoked().len() == 0
                    &&& self.running->0.ordered@.len() == 0
                    &&& self.running->0.nr_updates == 1
                    &&& self.next_tid == tid_next(before.next_tid)
                },
            }
        }
    }

    /// Opens a handle on the running transaction, which is started where there
    /// is none. None is given while a transaction is being locked, and an
    /// aborted journal refuses.
    pub fn open_op(&mut self) -> (r: Result<Option<OpHandle>, Error>)
        requires
            old(self).wf(),
            old(self).running matches Some(txn) ==> txn.nr_updates < u32::MAX,
        ensures
            final(self).wf(),
            match r {
                Ok(handle) => !old(self).aborted && final(self).opened(*old(self), handle),
                Err(e) => {
                    &&& old(self).aborted
                    &&& e == Error::Aborted
                    &&& *final(self) == *old(self)
                },
            },
    {
        if self.aborted {
            return Err(Error::Aborted);
        }
        if self.locking.is_some() {
            return Ok(None);
        }
        match &mut self.running {
            Some(txn) => {
                txn.open_update();
                Ok(Some(OpHandle { handle: Some(txn.tid()) }))
            },
            None => {
                let tid = self.next_tid;
                let mut txn = Transaction::new(tid);
                txn.open_update();
                self.running = Some(txn);
                self.next_tid = tid.next();
                Ok(Some(OpHandle { handle: Some(tid) }))
            },
        }
    }

    /// Begins an operation that changes the file system. An aborted journal
    /// leaves the file system read-only; otherwise a handle is opened.
    pub fn begin_op(&mut self) -> (r: Result<Option<OpHandle>, Error>)
        requires
            old(self).wf(),
            old(self).running matches Some(txn) ==> txn.nr_updates < u32::MAX,
        ensures
            final(self).wf(),
            match r {
                Ok(handle) => !old(self).aborted && final(self).opened(*old(self), handle),
                Err(e) => {
                    &&& old(self).aborted
                    &&& e == Error::ReadOnly
                    &&& *final(self) == *old(self)
                },
            },
    {
        if self.is_aborted() {
            return Err(Error::ReadOnly);
        }
        self.open_op()
    }

    /// Stops the running transaction from taking new operations. It is
    /// committed once those under way have ended.
    pub fn lock_running(&mut self)
        requires
            old(self).wf(),
        ensures
            final(self).wf(),
            final(self).running is None,
            final(self).locking == old(self).open_txn(),
            final(self).committing == old(self).committing,
            final(self).same_log(*old(self)),
            final(self).same_memory(*old(self)),
            final(self).same_flags(*old(self)),
    {
        if let Some(txn) = self.running.take() {
            self.locking = Some(txn);
        }
    }

    /// Ends an operation. A handle whose transaction is not open is refused.
    pub fn close_op(&mut self, handle: OpHandle) -> (r: Result<(), Error>)
        requires
            old(self).wf(),
        ensures
            final(self).wf(),
            r is Ok <==> (handle.handle matches Some(tid) ==> old(self).is_open(tid)
                && old(self).open_txn()->0.nr_updates > 0),
            r matches Err(e) ==> e == Error::HandleOutlivedTransaction,
            r is Err || handle.handle is None ==> *final(self) == *old(self),
            r is Ok && handle.handle is Some ==> {
                &&& final(self).only_open_differs(*old(self))
                &&& final(self).open_txn()->0.tid == old(self).open_txn()->0.tid
                &&& final(self).open_txn()->0.captures == old(self).open_txn()->0.captures
                &&& final(self).open_txn()->0.revokes == old(self).open_txn()->0.revokes
                &&& final(self).open_txn()->0.ordered == old(self).open_txn()->0.ordered
                &&& final(self).open_txn()->0.nr_updates == old(self).open_txn()->0.nr_updates - 1
            },
    {
        let tid = match handle.handle {
            None => {
                return Ok(());
            },
            Some(tid) => tid,
        };
        match self.verify_running(tid) {
            Err(e) => Err(e),
            Ok(txn) => {
                if txn.nr_updates() == 0 {
                    return Err(Error::HandleOutlivedTransaction);
                }
                txn.close_update();
                Ok(())
            },
        }
    }

    /// The open transaction, which has to be `tid`: a change never lands in
    /// another transaction than the one that the handle belongs to.
    pub fn verify_running(&mut self, tid: Tid) -> (r: Result<&mut Transaction, Error>)
        requires
            old(self).wf(),
        ensures
            r is Ok <==> old(self).is_open(tid),
            r matches Err(e) ==> e == Error::HandleOutlivedTransaction && *final(self) == *old(
                self,
            ),
            r matches Ok(txn) ==> {
                &&& Some(*txn) == old(self).open_txn()
                &&& final(self).open_txn() == Some(*final(txn))
                &&& final(self).only_open_differs(*old(self))
                &&& final(txn).wf() ==> final(self).wf()
            },
    {
        if self.running.is_some() {
            match &mut self.running {
                Some(txn) => if txn.tid == tid {
                    Ok(txn)
                } else {
                    Err(Error::HandleOutlivedTransaction)
                },
                None => Err(Error::HandleOutlivedTransaction),
            }
        } else {
            match &mut self.locking {
                Some(txn) => if txn.tid == tid {
                    Ok(txn)
                } else {
                    Err(Error::HandleOutlivedTransaction)
                },
                None => Err(Error::HandleOutlivedTransaction),
            }
        }
    }

    /// Captures a block that is to be changed. It starts from the newest
    /// content that there is: what the transaction has of it already, or what
    /// a committed transaction has that is not home yet, or else the content
    /// at home.
    pub fn get_write_access(&mut self, handle: OpHandle, blocknr: u64) -> (r: Result<
        AccessStep,
        Error,
    >)
        requires
            old(self).wf(),
        ensures
            final(self).wf(),
            handle.handle is None ==> r == Ok::<AccessStep, Error>(
                AccessStep::Ready(WriteAccess { live: None }),
            ) && *final(self) == *old(self),
            handle.handle matches Some(tid) ==> if !old(self).is_open(tid) {
                &&& r == Err::<AccessStep, Error>(Error::HandleOutlivedTransaction)
                &&& *final(self) == *old(self)
            } else if old(self).newest(blocknr) is None {
                &&& r == Ok::<AccessStep, Error>(AccessStep::NeedsBlock)
                &&& *final(self) == *old(self)
            } else {
                &&& r == Ok::<AccessStep, Error>(AccessStep::Ready(access_of(handle, blocknr)))
                &&& final(self).captured_from(*old(self), blocknr, old(self).newest(blocknr)->0)
            },
    {
        let tid = match handle.handle {
            None => {
                return Ok(AccessStep::Ready(WriteAccess { live: None }));
            },
            Some(tid) => tid,
        };
        let access = WriteAccess { live: Some(LiveAccess { tid, blocknr }) };
        let image = match self.uncheckpointed.get(blocknr) {
            Some(image) => Some(*image.value),
            None => None,
        };
        match self.verify_running(tid) {
            Err(e) => Err(e),
            Ok(txn) => {
                if txn.buffer_bytes(blocknr).is_some() {
                    proof {
                        let map = captured(txn.captures);
                        assert(map.insert(blocknr, map[blocknr]) =~= map);
                        assert(txn.captures@.dom().contains(blocknr));
                        assert(txn.revokes@.remove(blocknr) =~= txn.revokes@);
                    }
                    return Ok(AccessStep::Ready(access));
                }
                match image {
                    Some(bytes) => {
                        txn.capture(blocknr, bytes);
                        Ok(AccessStep::Ready(access))
                    },
                    None => Ok(AccessStep::NeedsBlock),
                }
            },
        }
    }

    /// The open transaction has captured `bytes` of the block `blocknr`, and a
    /// revoke of the block is cancelled. Nothing else differs from `before`.
    pub open spec fn captured_from(self, before: Self, blocknr: u64, bytes: Seq<u8>) -> bool {
        &&& self.only_open_differs(before)
        &&& self.open_txn()->0.same_frame(before.open_txn()->0)
        &&& captured(self.open_txn()->0.captures) == captured(
            before.open_txn()->0.captures,
        ).insert(blocknr, bytes)
        &&& self.open_txn()->0.revokes@ == before.open_txn()->0.revokes@.remove(blocknr)
    }

    /// Captures a block with its content at home, which was read because there
    /// was no newer one. Where a newer one has come up since, that one stays.
    pub fn seed_write_access(
        &mut self,
        handle: OpHandle,
        blocknr: u64,
        home: [u8; BLOCK_SIZE],
    ) -> (r: Result<WriteAccess, Error>)
        requires
            old(self).wf(),
        ensures
            final(self).wf(),
            handle.handle is None ==> r == Ok::<WriteAccess, Error>(WriteAccess { live: None })
                && *final(self) == *old(self),
            handle.handle matches Some(tid) ==> if !old(self).is_open(tid) {
                &&& r == Err::<WriteAccess, Error>(Error::HandleOutlivedTransaction)
                &&& *final(self) == *old(self)
            } else {
                &&& r == Ok::<WriteAccess, Error>(access_of(handle, blocknr))
                &&& final(self).captured_from(
                    *old(self),
                    blocknr,
                    match old(self).newest(blocknr) {
                        Some(bytes) => bytes,
                        None => home@,
                    },
                )
            },
    {
        match self.get_write_access(handle, blocknr) {
            Err(e) => Err(e),
            Ok(AccessStep::Ready(access)) => Ok(access),
            Ok(AccessStep::NeedsBlock) => match handle.handle {
                None => Ok(WriteAccess { live: None }),
                Some(tid) => match self.verify_running(tid) {
                    Err(e) => Err(e),
                    Ok(txn) => {
                        txn.capture(blocknr, home);
                        Ok(WriteAccess { live: Some(LiveAccess { tid, blocknr }) })
                    },
                },
            },
        }
    }

    /// Captures a newly allocated block as zeros: what is at home means
    /// nothing.
    pub fn get_create_access(&mut self, handle: OpHandle, blocknr: u64) -> (r: Result<
        WriteAccess,
        Error,
    >)
        requires
            old(self).wf(),
        ensures
            final(self).wf(),
            handle.handle is None ==> r == Ok::<WriteAccess, Error>(WriteAccess { live: None })
                && *final(self) == *old(self),
            handle.handle matches Some(tid) ==> if !old(self).is_open(tid) {
                &&& r == Err::<WriteAccess, Error>(Error::HandleOutlivedTransaction)
                &&& *final(self) == *old(self)
            } else {
                &&& r == Ok::<WriteAccess, Error>(access_of(handle, blocknr))
                &&& final(self).captured_from(*old(self), blocknr, zeros(BLOCK_SIZE as nat))
            },
    {
        let tid = match handle.handle {
            None => {
                return Ok(WriteAccess { live: None });
            },
            Some(tid) => tid,
        };
        match self.verify_running(tid) {
            Err(e) => Err(e),
            Ok(txn) => {
                txn.capture_create(blocknr);
                Ok(WriteAccess { live: Some(LiveAccess { tid, blocknr }) })
            },
        }
    }

    /// Overwrites a part of a captured block. An inert access does nothing.
    pub fn patch(&mut self, access: WriteAccess, offset: usize, bytes: &[u8]) -> (r: Result<
        (),
        Error,
    >)
        requires
            old(self).wf(),
            offset + bytes@.len() <= BLOCK_SIZE,
        ensures
            final(self).wf(),
            access.live is None ==> r is Ok && *final(self) == *old(self),
            access.live matches Some(live) ==> if !old(self).is_open(live.tid) {
                &&& r == Err::<(), Error>(Error::HandleOutlivedTransaction)
                &&& *final(self) == *old(self)
            } else if captured_in(old(self).open_txn(), live.blocknr) is None {
                &&& r == Err::<(), Error>(Error::NotCaptured)
                &&& *final(self) == *old(self)
            } else {
                &&& r is Ok
                &&& final(self).only_open_differs(*old(self))
                &&& final(self).open_txn()->0.same_frame(old(self).open_txn()->0)
                &&& final(self).open_txn()->0.revokes == old(self).open_txn()->0.revokes
                &&& captured(final(self).open_txn()->0.captures) == captured(
                    old(self).open_txn()->0.captures,
                ).insert(
                    live.blocknr,
                    splice(
                        captured_in(old(self).open_txn(), live.blocknr)->0,
                        offset as int,
                        bytes@,
                    ),
                )
            },
    {
        let live = match access.live {
            None => {
                return Ok(());
            },
            Some(live) => live,
        };
        match self.verify_running(live.tid) {
            Err(e) => Err(e),
            Ok(txn) => txn.apply_patch(live.blocknr, offset, bytes),
        }
    }

    /// The content of a block that is newer than the one at home, if there is
    /// one: a reader of metadata looks here first.
    pub fn newest_bytes(&self, blocknr: u64) -> (r: Option<[u8; BLOCK_SIZE]>)
        requires
            self.wf(),
        ensures
            r is Some <==> self.newest(blocknr) is Some,
            r matches Some(bytes) ==> Some(bytes@) == self.newest(blocknr),
    {
        let open = match &self.running {
            Some(txn) => Some(txn),
            None => match &self.locking {
                Some(txn) => Some(txn),
                None => None,
            },
        };
        if let Some(txn) = open {
            if let Some(bytes) = txn.buffer_bytes(blocknr) {
                return Some(*bytes);
            }
        }
        match self.uncheckpointed.get(blocknr) {
            Some(image) => Some(*image.value),
            None => None,
        }
    }

    /// Notes that a block is freed. Metadata is revoked, and the block is
    /// pinned until the transaction is committed.
    pub fn forget(&mut self, handle: OpHandle, kind: ForgetKind, blocknr: u64) -> (r: Result<
        (),
        Error,
    >)
        requires
            old(self).wf(),
        ensures
            final(self).wf(),
            handle.handle is None || kind == ForgetKind::Data ==> r is Ok && *final(self) == *old(
                self,
            ),
            handle.handle matches Some(tid) ==> kind == ForgetKind::Metadata ==> if !old(
                self,
            ).is_open(tid) {
                &&& r == Err::<(), Error>(Error::HandleOutlivedTransaction)
                &&& *final(self) == *old(self)
            } else {
                &&& r is Ok
                &&& final(self).running is Some <==> old(self).running is Some
                &&& final(self).locking is Some <==> old(self).locking is Some
                &&& final(self).committing == old(self).committing
                &&& final(self).same_log(*old(self))
                &&& final(self).same_flags(*old(self))
                &&& final(self).uncheckpointed == old(self).uncheckpointed
                &&& final(self).revoked == old(self).revoked
                &&& final(self).pinned_frees@ == old(self).pinned_frees@.push(
                    PinnedFree { tid, start: blocknr, count: 1 },
                )
                &&& final(self).open_txn()->0.same_frame(old(self).open_txn()->0)
                &&& final(self).open_txn()->0.captures@ == old(
                    self,
                ).open_txn()->0.captures@.remove(blocknr)
                &&& final(self).open_txn()->0.revokes@ == old(
                    self,
                ).open_txn()->0.revokes@.insert(blocknr, ())
            },
    {
        let tid = match handle.handle {
            None => {
                return Ok(());
            },
            Some(tid) => tid,
        };
        match kind {
            ForgetKind::Data => {
                return Ok(());
            },
            ForgetKind::Metadata => {},
        }
        match self.verify_running(tid) {
            Err(e) => {
                return Err(e);
            },
            Ok(txn) => {
                txn.forget_block(blocknr);
            },
        }
        self.pinned_frees.push(PinnedFree { tid, start: blocknr, count: 1 });
        Ok(())
    }
}

/// A block that was captured through a handle is found again as its newest
/// content, by readers and by later captures.
pub proof fn captures_are_read_back(
    before: JournalState,
    after: JournalState,
    blocknr: u64,
    bytes: Seq<u8>,
    other: u64,
)
    requires
        before.open_txn() is Some,
        after.captured_from(before, blocknr, bytes),
    ensures
        after.newest(blocknr) == Some(bytes),
        other != blocknr ==> after.newest(other) == before.newest(other),
{
}

} // verus!
