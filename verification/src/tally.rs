//! The integer bookkeeping of a benchmark run: how many room-ticks it checks,
//! and how many of those broke the conservation tolerance.

use vstd::prelude::*;

verus! {

/// Counts the room-ticks checked during a run and, among them, those whose
/// conservation error exceeded the tolerance.
pub struct ViolationTally {
    checked: u64,
    violations: u64,
}

impl ViolationTally {
    #[verifier::type_invariant]
    spec fn bounded(self) -> bool {
        self.violations <= self.checked
    }

    /// Room-ticks checked so far.
    pub closed spec fn spec_checked(self) -> nat {
        self.checked as nat
    }

    /// Room-ticks checked so far whose error exceeded the tolerance.
    pub closed spec fn spec_violations(self) -> nat {
        self.violations as nat
    }

    /// A tally with nothing checked.
    pub fn new() -> (tally: Self)
        ensures
            tally.spec_checked() == 0,
            tally.spec_violations() == 0,
    {
        ViolationTally { checked: 0, violations: 0 }
    }

    /// Records one checked room-tick; `exceeded` says whether its conservation
    /// error was above the tolerance.
    pub fn observe(&mut self, exceeded: bool)
        requires
            old(self).spec_checked() < u64::MAX,
        ensures
            final(self).spec_checked() == old(self).spec_checked() + 1,
            final(self).spec_violations() == old(self).spec_violations() + if exceeded {
                1nat
            } else {
                0nat
            },
    {
        proof {
            use_type_invariant(&*self);
        }
        let checked = self.checked + 1;
        let violations = if exceeded {
            self.violations + 1
        } else {
            self.violations
        };
        *self = ViolationTally { checked, violations };
    }

    /// Room-ticks checked so far.
    pub fn checked(&self) -> (count: u64)
        ensures
            count == self.spec_checked(),
    {
        self.checked
    }

    /// Violations so far; never more than the room-ticks checked.
    pub fn violations(&self) -> (count: u64)
        ensures
            count == self.spec_violations(),
            count <= self.spec_checked(),
    {
        proof {
            use_type_invariant(self);
        }
        self.violations
    }
}

/// The number of room-ticks in a run of `ticks` ticks over `rooms` rooms, or
/// `None` where that number does not fit in a `u64`.
pub fn total_room_ticks(ticks: u64, rooms: usize) -> (total: Option<u64>)
    ensures
        total matches Some(t) ==> t == ticks * rooms,
        total is None <==> ticks * rooms > u64::MAX,
{
    ticks.checked_mul(rooms as u64)
}

} // verus!
