//! The advisory probe of the subscription feed: a short burst of slot
//! notifications, of which the first, the last and the number are kept.

use vstd::prelude::*;

verus! {

/// The most notifications that one burst takes.
pub const BURST_LIMIT: usize = 5;

/// The notifications taken so far in one burst.
pub struct SlotBurst {
    first: Option<u64>,
    last: Option<u64>,
    count: usize,
    seen: Ghost<Seq<u64>>,
}

impl SlotBurst {
    /// The first, the last and the number are those of the slots taken, and
    /// no more than the limit are taken.
    #[verifier::type_invariant]
    spec fn coherent(&self) -> bool {
        &&& self.count == self.seen@.len()
        &&& self.count <= BURST_LIMIT
        &&& self.first == if self.seen@.len() > 0 {
            Some(self.seen@[0])
        } else {
            None
        }
        &&& self.last == if self.seen@.len() > 0 {
            Some(self.seen@.last())
        } else {
            None
        }
    }

    /// The slots taken, in the order in which they came.
    pub closed spec fn seen(&self) -> Seq<u64> {
        self.seen@
    }

    /// A burst in which nothing has come yet.
    pub fn new() -> (r: SlotBurst)
        ensures
            r.seen() == Seq::<u64>::empty(),
    {
        SlotBurst { first: None, last: None, count: 0, seen: Ghost(Seq::empty()) }
    }

    /// Tells whether the burst takes another notification.
    pub fn wants_more(&self) -> (r: bool)
        ensures
            r == (self.seen().len() < BURST_LIMIT),
    {
        proof {
            use_type_invariant(self);
        }
        self.count < BURST_LIMIT
    }

    /// Takes the notification of `slot`, unless the burst is full.
    pub fn observe(self, slot: u64) -> (r: SlotBurst)
        ensures
            r.seen() == if self.seen().len() < BURST_LIMIT {
                self.seen().push(slot)
            } else {
                self.seen()
            },
    {
        proof {
            use_type_invariant(&self);
        }
        if self.count < BURST_LIMIT {
            SlotBurst {
                first: match self.first {
                    Some(f) => Some(f),
                    None => Some(slot),
                },
                last: Some(slot),
                count: self.count + 1,
                seen: Ghost(self.seen@.push(slot)),
            }
        } else {
            self
        }
    }

    /// The number of notifications taken.
    pub fn count(&self) -> (n: usize)
        ensures
            n == self.seen().len(),
            n <= BURST_LIMIT,
    {
        proof {
            use_type_invariant(self);
        }
        self.count
    }

    /// The first slot taken, if any.
    pub fn first(&self) -> (r: Option<u64>)
        ensures
            r == if self.seen().len() > 0 {
                Some(self.seen()[0])
            } else {
                None
            },
    {
        proof {
            use_type_invariant(self);
        }
        self.first
    }

    /// The last slot taken, if any: what the probe reports.
    pub fn last(&self) -> (r: Option<u64>)
        ensures
            r == if self.seen().len() > 0 {
                Some(self.seen().last())
            } else {
                None
            },
    {
        proof {
            use_type_invariant(self);
        }
        self.last
    }
}

} // verus!
