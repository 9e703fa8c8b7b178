//! Times, and how an inode stores them.

use vstd::prelude::*;

verus! {

/// Nanoseconds in a second.
pub const NANOS_PER_SEC: u32 = 1_000_000_000;

/// A time since the epoch.
#[derive(Clone, Copy, Debug, PartialEq, Eq, Structural)]
pub struct Duration {
    pub secs: u64,
    pub nanos: u32,
}

impl Duration {
    /// Less than a second of nanoseconds.
    pub open spec fn wf(self) -> bool {
        self.nanos < NANOS_PER_SEC
    }

    /// A time of `secs` seconds and `nanos` nanoseconds. Whole seconds among
    /// the nanoseconds are carried over.
    pub fn new(secs: u64, nanos: u32) -> (d: Self)
        requires
            secs + nanos / NANOS_PER_SEC <= u64::MAX,
        ensures
            d.wf(),
            d.secs == secs + nanos / NANOS_PER_SEC,
            d.nanos == nanos % NANOS_PER_SEC,
    {
        Duration { secs: secs + (nanos / NANOS_PER_SEC) as u64, nanos: nanos % NANOS_PER_SEC }
    }

    /// The epoch.
    pub fn zero() -> (d: Self)
        ensures
            d == (Duration { secs: 0, nanos: 0 }),
    {
        Duration { secs: 0, nanos: 0 }
    }
}

/// The seconds that an inode stores: the base is signed, and the two bits of
/// epoch extend it upwards.
pub open spec fn stored_secs(secs: u32, extra: u32) -> int {
    (if secs >= 0x8000_0000 {
        secs - 0x1_0000_0000
    } else {
        secs as int
    }) + (extra % 4) * 0x1_0000_0000
}

/// The time that an inode stores. One before the epoch is taken as the epoch,
/// and the nanoseconds keep what they say.
pub open spec fn stored_time(secs: u32, extra: u32) -> Duration {
    let whole = if stored_secs(secs, extra) < 0 {
        0
    } else {
        stored_secs(secs, extra)
    };
    let nanos = extra / 4;
    Duration {
        secs: (whole + nanos / NANOS_PER_SEC) as u64,
        nanos: (nanos % NANOS_PER_SEC) as u32,
    }
}

/// Reads a time from its seconds and its extra bits: two bits of epoch below
/// thirty bits of nanoseconds.
pub fn decode_time(secs: u32, extra: u32) -> (d: Duration)
    ensures
        d == stored_time(secs, extra),
        d.wf(),
{
    let epoch: i64 = (extra % 4) as i64;
    let nanos: u32 = extra / 4;
    let base: i64 = if secs >= 0x8000_0000 {
        secs as i64 - 0x1_0000_0000
    } else {
        secs as i64
    };
    let whole: i64 = base + epoch * 0x1_0000_0000;
    let clamped: u64 = if whole < 0 {
        0
    } else {
        whole as u64
    };
    Duration::new(clamped, nanos)
}

/// The last second that the two bits of epoch can extend the signed base to.
pub const MAX_STORED_SECS: u64 = 0x3_7FFF_FFFF;

/// The seconds that a time is stored with: one past the range is stored as the
/// last of it.
pub open spec fn clamped_secs(d: Duration) -> u64 {
    if d.secs > MAX_STORED_SECS {
        MAX_STORED_SECS
    } else {
        d.secs
    }
}

/// How a time is stored: its seconds, and its extra bits. The epoch makes up for
/// the base being signed.
pub open spec fn time_words(d: Duration) -> (u32, u32) {
    let secs = clamped_secs(d);
    let epoch = (secs + 0x8000_0000) / 0x1_0000_0000;
    ((secs % 0x1_0000_0000) as u32, (epoch + d.nanos * 4) as u32)
}

/// Stores a time: its seconds, and its extra bits.
pub fn encode_time(d: Duration) -> (r: (u32, u32))
    requires
        d.wf(),
    ensures
        r == time_words(d),
{
    let secs: u64 = if d.secs > MAX_STORED_SECS {
        MAX_STORED_SECS
    } else {
        d.secs
    };
    let epoch: u64 = (secs + 0x8000_0000) / 0x1_0000_0000;
    ((secs % 0x1_0000_0000) as u32, epoch as u32 + d.nanos * 4)
}

/// A time that is stored is read back. One past the range is read back as the
/// last second of it.
pub proof fn time_round_trips(d: Duration)
    requires
        d.wf(),
    ensures
        stored_time(time_words(d).0, time_words(d).1) == (Duration {
            secs: clamped_secs(d),
            nanos: d.nanos,
        }),
{
}

} // verus!
