//! Hybrid logical clocks: a wall-clock millisecond and a counter within it, in
//! lexicographic order.

use vstd::prelude::*;

verus! {

/// A hybrid logical clock reading.
#[derive(Debug, Clone, Copy, PartialEq, Eq, Hash, Structural)]
pub struct Hlc {
    /// Wall-clock milliseconds when the reading was minted.
    pub wall_ms: u64,
    /// Tells apart the readings of one millisecond.
    pub ctr: u32,
}

/// The order of readings: by wall clock, then by counter.
pub open spec fn hlc_lt(a: Hlc, b: Hlc) -> bool {
    a.wall_ms < b.wall_ms || (a.wall_ms == b.wall_ms && a.ctr < b.ctr)
}

/// The later of two readings.
pub open spec fn hlc_max(a: Hlc, b: Hlc) -> Hlc {
    if hlc_lt(a, b) {
        b
    } else {
        a
    }
}

/// The reading minted after `prev` at the wall clock `now`: at the later of the
/// two walls, with the counter of `prev` plus one where that is the wall of
/// `prev`, and zero otherwise. A full counter moves on to the next millisecond.
pub open spec fn minted(prev: Option<Hlc>, now: u64) -> Hlc {
    match prev {
        None => Hlc { wall_ms: now, ctr: 0 },
        Some(p) => if now > p.wall_ms {
            Hlc { wall_ms: now, ctr: 0 }
        } else if p.ctr < u32::MAX {
            Hlc { wall_ms: p.wall_ms, ctr: (p.ctr + 1) as u32 }
        } else {
            Hlc { wall_ms: (p.wall_ms + 1) as u64, ctr: 0 }
        },
    }
}

impl Hlc {
    /// The reading before all others.
    #[verifier::allow_in_spec]
    pub fn zero() -> (r: Hlc)
        returns
            (Hlc { wall_ms: 0, ctr: 0 }),
    {
        Hlc { wall_ms: 0, ctr: 0 }
    }

    /// Mints the reading after `prev`, given the wall clock. There is none after
    /// the last reading of all.
    pub fn mint(prev: Option<Hlc>, now_wall_ms: u64) -> (r: Hlc)
        requires
            prev is Some ==> (prev->0.ctr < u32::MAX || prev->0.wall_ms < u64::MAX),
        ensures
            r == minted(prev, now_wall_ms),
            prev is Some ==> hlc_lt(prev->0, r),
            r.wall_ms >= now_wall_ms,
    {
        let p: Hlc = match prev {
            None => {
                return Hlc { wall_ms: now_wall_ms, ctr: 0 };
            },
            Some(p) => p,
        };
        if now_wall_ms > p.wall_ms {
            Hlc { wall_ms: now_wall_ms, ctr: 0 }
        } else if p.ctr < u32::MAX {
            Hlc { wall_ms: p.wall_ms, ctr: p.ctr + 1 }
        } else {
            Hlc { wall_ms: p.wall_ms + 1, ctr: 0 }
        }
    }

    /// The later of two readings.
    pub fn max(self, other: Hlc) -> (r: Hlc)
        ensures
            r == hlc_max(self, other),
    {
        if self.wall_ms > other.wall_ms || (self.wall_ms == other.wall_ms && self.ctr
            >= other.ctr) {
            self
        } else {
            other
        }
    }

    /// Whether this reading is earlier than `other`.
    pub fn earlier(self, other: Hlc) -> (r: bool)
        ensures
            r == hlc_lt(self, other),
    {
        self.wall_ms < other.wall_ms || (self.wall_ms == other.wall_ms && self.ctr < other.ctr)
    }
}

impl PartialOrd for Hlc {
    fn partial_cmp(&self, other: &Self) -> (r: Option<core::cmp::Ordering>) {
        if self.earlier(*other) {
            Some(core::cmp::Ordering::Less)
        } else if other.earlier(*self) {
            Some(core::cmp::Ordering::Greater)
        } else {
            Some(core::cmp::Ordering::Equal)
        }
    }
}

impl vstd::std_specs::cmp::PartialOrdSpecImpl for Hlc {
    open spec fn obeys_partial_cmp_spec() -> bool {
        true
    }

    open spec fn partial_cmp_spec(&self, other: &Self) -> Option<core::cmp::Ordering> {
        if hlc_lt(*self, *other) {
            Some(core::cmp::Ordering::Less)
        } else if hlc_lt(*other, *self) {
            Some(core::cmp::Ordering::Greater)
        } else {
            Some(core::cmp::Ordering::Equal)
        }
    }
}

impl Default for Hlc {
    fn default() -> (r: Self)
        ensures
            r == Hlc::zero(),
    {
        Hlc::zero()
    }
}

/// The order of readings is a strict total order.
pub proof fn law_hlc_order(a: Hlc, b: Hlc, c: Hlc)
    ensures
        !hlc_lt(a, a),
        hlc_lt(a, b) && hlc_lt(b, c) ==> hlc_lt(a, c),
        hlc_lt(a, b) || a == b || hlc_lt(b, a),
{
}

/// The zero reading is no later than any other.
pub proof fn law_zero_is_least(a: Hlc)
    ensures
        a == Hlc::zero() || hlc_lt(Hlc::zero(), a),
{
}

/// The later of two readings: in either order, however grouped, and of a reading
/// and itself.
pub proof fn law_hlc_max(a: Hlc, b: Hlc, c: Hlc)
    ensures
        hlc_max(a, b) == hlc_max(b, a),
        hlc_max(hlc_max(a, b), c) == hlc_max(a, hlc_max(b, c)),
        hlc_max(a, a) == a,
{
}

} // verus!
