//! The cap on how many connection attempts run at once.

use vstd::prelude::*;

verus! {

/// How many connection attempts a scan lets run at the same time.
pub const CONCURRENCY_LIMIT: usize = 1000;

/// A counting limiter. It hands out slots, never more than `capacity` at a
/// time; a slot that is given back can be handed out again.
pub struct ConcurrencyLimiter {
    capacity: usize,
    held: usize,
}

impl ConcurrencyLimiter {
    /// The number of slots there are.
    pub closed spec fn capacity(&self) -> nat {
        self.capacity as nat
    }

    /// The number of slots currently held.
    pub closed spec fn in_flight(&self) -> nat {
        self.held as nat
    }

    /// No more slots are held than there are.
    pub open spec fn wf(&self) -> bool {
        self.in_flight() <= self.capacity()
    }

    /// A limiter with `capacity` slots, none of them held.
    pub fn new(capacity: usize) -> (limiter: ConcurrencyLimiter)
        ensures
            limiter.wf(),
            limiter.capacity() == capacity,
            limiter.in_flight() == 0,
    {
        ConcurrencyLimiter { capacity, held: 0 }
    }

    /// Takes a slot if one is free, and says whether it did.
    pub fn try_acquire(&mut self) -> (granted: bool)
        requires
            old(self).wf(),
        ensures
            final(self).wf(),
            final(self).capacity() == old(self).capacity(),
            granted == (old(self).in_flight() < old(self).capacity()),
            final(self).in_flight() == old(self).in_flight() + (if granted { 1nat } else { 0nat }),
    {
        if self.held < self.capacity {
            self.held = self.held + 1;
            true
        } else {
            false
        }
    }

    /// Gives one held slot back, and says whether there was one to give.
    pub fn release(&mut self) -> (released: bool)
        requires
            old(self).wf(),
        ensures
            final(self).wf(),
            final(self).capacity() == old(self).capacity(),
            released == (old(self).in_flight() > 0),
            final(self).in_flight() + (if released { 1nat } else { 0nat }) == old(self).in_flight(),
    {
        if self.held > 0 {
            self.held = self.held - 1;
            true
        } else {
            false
        }
    }

    /// The number of slots currently held.
    pub fn held(&self) -> (held: usize)
        ensures
            held == self.in_flight(),
    {
        self.held
    }

    /// The number of slots that can still be taken.
    pub fn available(&self) -> (free: usize)
        requires
            self.wf(),
        ensures
            free == self.capacity() - self.in_flight(),
    {
        self.capacity - self.held
    }
}

} // verus!
