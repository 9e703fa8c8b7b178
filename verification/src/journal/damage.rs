//! What applying a transaction does with a log that is damaged or that holds
//! something else: it writes home nothing but intact blocks of the log that no revoke
//! suppresses, and does not end well.

use vstd::prelude::*;

use crate::bytes::{be32_at, splice};
use crate::error::Error;
use crate::journal::apply::{
    applied, applied_chain, applied_data, applied_tags, covers, steps_left, ApplyOutcome, LogView,
};
use crate::journal::blockmap::Dated;
use crate::journal::descriptor::Image;
use crate::journal::format::{tail_csum_ok, JOURNAL_HEADER_SIZE};
use crate::journal::geometry::ring_next;
use crate::journal::revoke::suppressed;
use crate::journal::superblock::JournalSuperblock;
use crate::journal::tag::DescriptorTag;
use crate::journal::tid::Tid;

verus! {

/// Whether an image is a block of the log, with the number of the format put back
/// at its beginning or as it is.
pub open spec fn is_logged_at(view: LogView, image: Image, p: int) -> bool {
    image.bytes == view(p) || image.bytes == splice(view(p), 0, seq![0xC0u8, 0x3B, 0x39, 0x98])
}

/// Whether an image may be written home: it is a block of the log, and not
/// suppressed.
pub open spec fn may_go_home(
    records: Map<u64, Dated<()>>,
    view: LogView,
    tid: Tid,
    image: Image,
) -> bool {
    &&& !suppressed(records, image.blocknr, tid)
    &&& exists|p: int| #[trigger] is_logged_at(view, image, p)
}

/// Whether an outcome is one that a walk may have, which has met a damaged block if
/// `bad` says so.
pub open spec fn is_sound(
    records: Map<u64, Dated<()>>,
    view: LogView,
    tid: Tid,
    bad: bool,
    outcome: ApplyOutcome,
) -> bool {
    &&& bad ==> outcome.result is Err
    &&& forall|i: int|
        0 <= i < outcome.writes.len() ==> may_go_home(
            records,
            view,
            tid,
            #[trigger] outcome.writes[i],
        )
}

proof fn lemma_chain_is_sound(
    sb: JournalSuperblock,
    mapped: nat,
    records: Map<u64, Dated<()>>,
    view: LogView,
    tid: Tid,
    log: int,
    consumed: int,
    bad: bool,
)
    ensures
        is_sound(
            records,
            view,
            tid,
            bad,
            applied_chain(sb, mapped, records, view, tid, log, consumed, bad),
        ),
    decreases steps_left(sb, consumed), 2int, 0int,
{
    if consumed + 1 <= sb.maxlen {
        lemma_chain_is_sound(
            sb,
            mapped,
            records,
            view,
            tid,
            ring_next(sb, log),
            consumed + 1,
            bad,
        );
    }
    lemma_tags_are_sound(
        sb,
        mapped,
        records,
        view,
        tid,
        sb.tag_layout.walked(view(log), JOURNAL_HEADER_SIZE as int),
        log,
        consumed,
        bad,
    );
}

proof fn lemma_tags_are_sound(
    sb: JournalSuperblock,
    mapped: nat,
    records: Map<u64, Dated<()>>,
    view: LogView,
    tid: Tid,
    items: Seq<Result<DescriptorTag, Error>>,
    log: int,
    consumed: int,
    bad: bool,
)
    ensures
        is_sound(
            records,
            view,
            tid,
            bad,
            applied_tags(sb, mapped, records, view, tid, items, log, consumed, bad),
        ),
    decreases steps_left(sb, consumed), 1int, 2 * items.len(),
{
    let next = ring_next(sb, log);
    if items.len() == 0 {
        if consumed + 1 <= sb.maxlen {
            lemma_chain_is_sound(sb, mapped, records, view, tid, next, consumed + 1, bad);
        }
    } else if let Ok(tag) = items[0] {
        if suppressed(records, tag.blocknr, tid) {
            lemma_tags_are_sound(
                sb,
                mapped,
                records,
                view,
                tid,
                items.skip(1),
                next,
                consumed + 1,
                bad,
            );
        } else {
            lemma_data_is_sound(
                sb,
                mapped,
                records,
                view,
                tid,
                tag,
                items.skip(1),
                next,
                consumed + 1,
                bad,
            );
        }
    }
}

proof fn lemma_data_is_sound(
    sb: JournalSuperblock,
    mapped: nat,
    records: Map<u64, Dated<()>>,
    view: LogView,
    tid: Tid,
    tag: DescriptorTag,
    rest: Seq<Result<DescriptorTag, Error>>,
    log: int,
    consumed: int,
    bad: bool,
)
    requires
        !suppressed(records, tag.blocknr, tid),
    ensures
        is_sound(
            records,
            view,
            tid,
            bad,
            applied_data(sb, mapped, records, view, tid, tag, rest, log, consumed, bad),
        ),
        sb.csum_seed is Some && !tag.data_ok(sb.csum_seed->0, tid, view(log)) ==> is_sound(
            records,
            view,
            tid,
            true,
            applied_data(sb, mapped, records, view, tid, tag, rest, log, consumed, bad),
        ),
    decreases steps_left(sb, consumed), 1int, 2 * rest.len() + 1,
{
    lemma_tags_are_sound(sb, mapped, records, view, tid, rest, log, consumed, bad);
    lemma_tags_are_sound(sb, mapped, records, view, tid, rest, log, consumed, true);
    let outcome = applied_data(sb, mapped, records, view, tid, tag, rest, log, consumed, bad);
    let later = applied_tags(sb, mapped, records, view, tid, rest, log, consumed, bad);
    if log < mapped && !(sb.csum_seed is Some && !tag.data_ok(sb.csum_seed->0, tid, view(log))) {
        let image = outcome.writes[0];
        assert(image.bytes =~= view(log) || image.bytes =~= splice(
            view(log),
            0,
            seq![0xC0u8, 0x3B, 0x39, 0x98],
        ));
        assert(is_logged_at(view, image, log));
        assert forall|i: int| 0 <= i < outcome.writes.len() implies may_go_home(
            records,
            view,
            tid,
            #[trigger] outcome.writes[i],
        ) by {
            if i > 0 {
                assert(outcome.writes[i] == later.writes[i - 1]);
            }
        }
    }
}

/// Whatever the log holds, applying a transaction writes home blocks of the log only,
/// and none that a revoke suppresses.
pub proof fn only_logged_blocks_go_home(
    sb: JournalSuperblock,
    mapped: nat,
    records: Map<u64, Dated<()>>,
    view: LogView,
    start: int,
    tid: Tid,
    i: int,
)
    requires
        0 <= i < applied(sb, mapped, records, view, start, tid).writes.len(),
    ensures
        !suppressed(
            records,
            applied(sb, mapped, records, view, start, tid).writes[i].blocknr,
            tid,
        ),
        exists|p: int| #[trigger]
            is_logged_at(view, applied(sb, mapped, records, view, start, tid).writes[i], p),
{
    reveal(applied);
    lemma_chain_is_sound(sb, mapped, records, view, tid, start, 0, false);
    assert(may_go_home(
        records,
        view,
        tid,
        applied(sb, mapped, records, view, start, tid).writes[i],
    ));
}

/// A block of the log whose checksum is wrong is not written home, and the
/// transaction fails, whatever comes behind it.
pub proof fn damaged_blocks_fail_the_transaction(
    sb: JournalSuperblock,
    mapped: nat,
    records: Map<u64, Dated<()>>,
    view: LogView,
    tid: Tid,
    tag: DescriptorTag,
    rest: Seq<Result<DescriptorTag, Error>>,
    log: int,
    consumed: int,
    bad: bool,
)
    requires
        sb.csum_seed is Some,
        !tag.data_ok(sb.csum_seed->0, tid, view(log)),
        !suppressed(records, tag.blocknr, tid),
    ensures
        ({
            let outcome = applied_data(
                sb,
                mapped,
                records,
                view,
                tid,
                tag,
                rest,
                log,
                consumed,
                bad,
            );
            &&& outcome.result is Err
            &&& log < mapped ==> outcome.writes == applied_tags(
                sb,
                mapped,
                records,
                view,
                tid,
                rest,
                log,
                consumed,
                true,
            ).writes
        }),
{
    lemma_data_is_sound(sb, mapped, records, view, tid, tag, rest, log, consumed, bad);
}

/// A transaction that does not begin where it is looked for, with the number of the
/// format and its id, or whose first descriptor is damaged, fails before anything is
/// written.
pub proof fn strange_blocks_fail_the_transaction(
    sb: JournalSuperblock,
    mapped: nat,
    records: Map<u64, Dated<()>>,
    view: LogView,
    start: int,
    tid: Tid,
)
    requires
        start < mapped,
    ensures
        ({
            let first = view(start);
            let outcome = applied(sb, mapped, records, view, start, tid);
            &&& be32_at(first, 0) != 0xC03B_3998 || be32_at(first, 8) != tid.0
                ==> outcome.writes.len() == 0 && outcome.result is Err
            &&& be32_at(first, 4) != 1 && be32_at(first, 4) != 2 && be32_at(first, 4) != 5
                ==> outcome.writes.len() == 0 && outcome.result is Err
            &&& be32_at(first, 0) != 0xC03B_3998 ==> outcome.result == Err::<u32, Error>(
                Error::ChainBadMagic,
            )
            &&& sb.csum_seed is Some && be32_at(first, 4) == 1 && !tail_csum_ok(
                sb.csum_seed->0,
                first,
            ) ==> outcome.writes.len() == 0 && outcome.result is Err
        }),
{
    reveal(applied);
}

/// A scan of a transaction fails in the same way on a block that is not of it.
pub proof fn strange_blocks_fail_the_scan(
    sb: JournalSuperblock,
    mapped: nat,
    blocks: Set<u64>,
    view: LogView,
    start: int,
    tid: Tid,
)
    requires
        start < mapped,
    ensures
        ({
            let first = view(start);
            let outcome = covers(sb, mapped, blocks, view, start, tid);
            &&& be32_at(first, 0) != 0xC03B_3998 || be32_at(first, 8) != tid.0 ==> outcome is Err
            &&& be32_at(first, 4) != 1 && be32_at(first, 4) != 2 && be32_at(first, 4) != 5
                ==> outcome is Err
        }),
{
    reveal(covers);
}

} // verus!
