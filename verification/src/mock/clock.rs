//! A clock that moves only when told to.
use vstd::prelude::*;
use crate::ports::Clock;
use crate::time::{Span, Timestamp};

verus! {

#[derive(Debug)]
pub struct MockClock {
    now: Timestamp,
}

impl View for MockClock {
    type V = Timestamp;

    closed spec fn view(&self) -> Timestamp {
        self.now
    }
}

impl MockClock {
    pub fn new(start: Timestamp) -> (clock: MockClock)
        ensures
            clock@ == start,
    {
        MockClock { now: start }
    }

    pub fn set(&mut self, now: Timestamp)
        ensures
            final(self)@ == now,
    {
        self.now = now;
    }

    pub fn advance(&mut self, by: Span)
        requires
            old(self)@.plus(by) is Some,
        ensures
            Some(final(self)@) == old(self)@.plus(by),
    {
        if let Some(later) = self.now.checked_add(by) {
            self.now = later;
        }
    }
}

impl Clock for MockClock {
    fn now(&self) -> (now: Timestamp)
        ensures
            now == self@,
    {
        self.now
    }
}

} // verus!
