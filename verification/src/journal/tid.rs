//! Transaction ids.

use vstd::prelude::*;

verus! {

/// Number of transaction ids before they wrap.
pub const TID_SPAN: u64 = 0x1_0000_0000;

/// A transaction id. Ids wrap around, and compare by their distance.
#[derive(Clone, Copy, Debug, PartialEq, Eq, Structural)]
pub struct Tid(pub u32);

/// How many steps `a` is ahead of `b`, counted around the wrap.
pub open spec fn tid_distance(a: Tid, b: Tid) -> int {
    (a.0 - b.0) % (TID_SPAN as int)
}

/// Whether `a` is `b` or comes after it: it is less than half the span ahead.
pub open spec fn tid_geq(a: Tid, b: Tid) -> bool {
    tid_distance(a, b) < 0x8000_0000
}

/// The id after `a`.
pub open spec fn tid_next(a: Tid) -> Tid {
    Tid(((a.0 + 1) % (TID_SPAN as int)) as u32)
}

/// The id before `a`.
pub open spec fn tid_prev(a: Tid) -> Tid {
    Tid(((a.0 - 1) % (TID_SPAN as int)) as u32)
}

/// The id `n` steps after `a`.
pub open spec fn tid_plus(a: Tid, n: int) -> Tid {
    Tid(((a.0 + n) % (TID_SPAN as int)) as u32)
}

impl Tid {
    /// Wraps an id.
    pub fn new(id: u32) -> (tid: Self)
        ensures
            tid == Tid(id),
    {
        Tid(id)
    }

    /// The id.
    pub fn get(self) -> (id: u32)
        ensures
            id == self.0,
    {
        self.0
    }

    /// The id after this one.
    pub fn next(self) -> (tid: Self)
        ensures
            tid == tid_next(self),
    {
        Tid(self.0.wrapping_add(1))
    }

    /// The id before this one.
    pub fn prev(self) -> (tid: Self)
        ensures
            tid == tid_prev(self),
    {
        Tid(self.0.wrapping_sub(1))
    }

    /// Whether this id is `other` or comes after it.
    pub fn geq(self, other: Self) -> (r: bool)
        ensures
            r == tid_geq(self, other),
    {
        self.0.wrapping_sub(other.0) < 0x8000_0000
    }
}

/// Stepping forward and back are inverse, across the wrap too.
pub proof fn tid_steps_invert(a: Tid)
    ensures
        tid_prev(tid_next(a)) == a,
        tid_next(tid_prev(a)) == a,
{
}

/// An id is at or after itself and its predecessor, and never at or after its
/// successor.
pub proof fn tid_order_of_neighbours(a: Tid)
    ensures
        tid_geq(a, a),
        tid_geq(tid_next(a), a),
        !tid_geq(a, tid_next(a)),
{
}

/// Whether `t` lies among the `0x8000_0000` ids from `base` on.
pub open spec fn tid_in_window(base: Tid, t: Tid) -> bool {
    tid_distance(t, base) < 0x8000_0000
}

/// Within a window of half the span, ids are totally ordered: the order is
/// that of the distance from the window's base.
pub proof fn tid_window_is_ordered(base: Tid, a: Tid, b: Tid)
    requires
        tid_in_window(base, a),
        tid_in_window(base, b),
    ensures
        tid_geq(a, b) == (tid_distance(a, base) >= tid_distance(b, base)),
        tid_geq(a, b) || tid_geq(b, a),
        tid_geq(a, b) && tid_geq(b, a) ==> a == b,
{
}

/// Steps add up.
pub proof fn tid_steps_add(a: Tid, n: int)
    ensures
        tid_plus(a, 0) == a,
        tid_plus(a, 1) == tid_next(a),
        tid_plus(tid_next(a), n) == tid_plus(a, n + 1),
{
    let m = TID_SPAN as int;
    vstd::arithmetic::div_mod::lemma_add_mod_noop(a.0 as int + 1, n, m);
    vstd::arithmetic::div_mod::lemma_add_mod_noop((a.0 as int + 1) % m, n, m);
    vstd::arithmetic::div_mod::lemma_mod_twice(a.0 as int + 1, m);
}

/// As many steps on as one id is ahead of another lead from that one to it.
pub proof fn tid_distance_leads_there(a: Tid, b: Tid)
    ensures
        tid_plus(b, tid_distance(a, b)) == a,
        tid_plus(b, tid_distance(a, b) + 1) == tid_next(a),
{
}

} // verus!
