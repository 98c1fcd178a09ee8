//! Counters: the per-peer sequence number generator and the inbound
//! connection counter.
use vstd::prelude::*;

verus! {

/// A monotonic generator of per-source sequence numbers.
#[derive(Debug, Clone)]
pub struct SequenceNumberGenerator {
    next_value: u64,
}

impl SequenceNumberGenerator {
    /// The number the next call to `next` returns.
    pub closed spec fn spec_next(self) -> u64 {
        self.next_value
    }

    /// A generator whose first number is `start`.
    pub fn new(start: u64) -> (r: SequenceNumberGenerator)
        ensures
            r.spec_next() == start,
    {
        SequenceNumberGenerator { next_value: start }
    }

    /// Returns the current number and steps to the next one, wrapping
    /// at the top of the range.
    pub fn next(&mut self) -> (r: u64)
        ensures
            r == old(self).spec_next(),
            final(self).spec_next() == (if old(self).spec_next() == u64::MAX {
                0u64
            } else {
                (old(self).spec_next() + 1) as u64
            }),
    {
        let r = self.next_value;
        if self.next_value == u64::MAX {
            self.next_value = 0;
        } else {
            self.next_value = self.next_value + 1;
        }
        r
    }
}

/// A count of the inbound connections currently open.
#[derive(Debug, Clone)]
pub struct ConnectionCounter {
    count: u64,
}

impl ConnectionCounter {
    /// The current count.
    pub closed spec fn spec_count(self) -> u64 {
        self.count
    }

    /// A counter starting at `start`.
    pub fn new(start: u64) -> (r: ConnectionCounter)
        ensures
            r.spec_count() == start,
    {
        ConnectionCounter { count: start }
    }

    /// One more connection is open.
    pub fn inc(&mut self)
        requires
            old(self).spec_count() < u64::MAX,
        ensures
            final(self).spec_count() == old(self).spec_count() + 1,
    {
        self.count = self.count + 1;
    }

    /// One connection has closed.
    pub fn dec(&mut self)
        requires
            old(self).spec_count() > 0,
        ensures
            final(self).spec_count() == old(self).spec_count() - 1,
    {
        self.count = self.count - 1;
    }

    /// The current count.
    pub fn get(&self) -> (r: u64)
        ensures
            r == self.spec_count(),
    {
        self.count
    }
}

} // verus!
