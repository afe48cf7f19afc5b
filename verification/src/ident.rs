//! Identity allocation for control-plane connections.

use vstd::prelude::*;

verus! {

/// Issues monotonically increasing, process-unique client identifiers.
///
/// The counter starts at 1 and hands out the pre-increment value on each
/// call, so the first connection receives identifier 1. Exhaustion of the
/// counter's range is an accepted non-goal at realistic connection
/// volumes; the increment wraps rather than failing.
pub struct IdAllocator {
    next: usize,
}

impl IdAllocator {
    /// The identifier the next call of `next_id` will return.
    pub closed spec fn upcoming(self) -> int {
        self.next as int
    }

    pub fn new() -> (r: Self)
        ensures
            r.upcoming() == 1,
    {
        IdAllocator { next: 1 }
    }

    /// Returns the pre-increment counter value and advances the counter.
    pub fn next_id(&mut self) -> (id: usize)
        ensures
            id == old(self).upcoming(),
            old(self).upcoming() < usize::MAX ==> final(self).upcoming() == old(self).upcoming()
                + 1,
    {
        let id = self.next;
        self.next = self.next.wrapping_add(1);
        id
    }
}

} // verus!
