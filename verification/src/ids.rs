//! The source of entity ids: a monotonic counter owned by the caller, kept
//! outside the index so the index itself holds no hidden generator state.
//!
//! Ids are never reused: every id handed out is strictly smaller than the
//! counter's next value, so it differs from everything handed out later.

use vstd::prelude::*;

verus! {

/// A monotonic counter of entity ids.
pub struct IdCounter {
    next_id: u64,
}

impl IdCounter {
    /// The id the counter will hand out next.
    pub closed spec fn next(self) -> u64 {
        self.next_id
    }

    /// Starts counting at zero.
    pub fn new() -> (c: Self)
        ensures
            c.next() == 0,
    {
        IdCounter { next_id: 0 }
    }

    /// The id that `fresh` would hand out, without advancing the counter;
    /// lets a caller see that the counter is not exhausted.
    pub fn peek(&self) -> (id: u64)
        ensures
            id == self.next(),
    {
        self.next_id
    }

    /// Hands out the next id. Each call returns a value strictly larger than
    /// every earlier one, so ids are unique for the counter's lifetime.
    pub fn fresh(&mut self) -> (id: u64)
        requires
            old(self).next() < u64::MAX,
        ensures
            id == old(self).next(),
            final(self).next() == id + 1,
    {
        let id = self.next_id;
        self.next_id = self.next_id + 1;
        id
    }
}

} // verus!
