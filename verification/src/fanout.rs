//! A bounded fan-out: work is started item by item, in order, and never
//! more of it is in flight than the limit allows.
//!
//! The fan-out starts nothing itself. The caller asks [`FanOut::start`] for
//! the next item whenever it could start one, and tells
//! [`FanOut::finish`] whenever an item is done; an item that is not handed
//! out waits. That the limit holds is an invariant of the type: no fan-out
//! that a program holds has more in flight than its limit.

use crate::pipeline::fan_out;
use vstd::prelude::*;

verus! {

/// The items that wait, the number of items in flight, and the limit.
pub struct FanOut<T> {
    pending: Vec<T>,
    in_flight: usize,
    limit: usize,
}

/// What a [`FanOut`] is.
pub struct FanOutState<T> {
    pub pending: Seq<T>,
    pub in_flight: nat,
    pub limit: nat,
}

impl<T> View for FanOut<T> {
    type V = FanOutState<T>;

    closed spec fn view(&self) -> FanOutState<T> {
        FanOutState {
            pending: self.pending@,
            in_flight: self.in_flight as nat,
            limit: self.limit as nat,
        }
    }
}

impl<T> FanOut<T> {
    /// The limit is at least one, and no more items are in flight than the
    /// limit allows.
    #[verifier::type_invariant]
    closed spec fn bounded(&self) -> bool {
        1 <= self.limit && self.in_flight <= self.limit
    }

    /// A fan-out of the items with nothing in flight. The limit is
    /// `max_concurrent`, and one where that is zero.
    pub fn new(items: Vec<T>, max_concurrent: usize) -> (r: FanOut<T>)
        ensures
            r@.pending == items@,
            r@.in_flight == 0,
            r@.limit == if max_concurrent == 0 {
                1
            } else {
                max_concurrent as nat
            },
    {
        FanOut { pending: items, in_flight: 0, limit: fan_out(max_concurrent) }
    }

    /// Hands out the first waiting item and counts it as in flight, if the
    /// limit allows one more and an item waits; otherwise hands out nothing
    /// and changes nothing.
    pub fn start(&mut self) -> (r: Option<T>)
        ensures
            final(self)@.limit == old(self)@.limit,
            final(self)@.in_flight <= final(self)@.limit,
            old(self)@.in_flight < old(self)@.limit && old(self)@.pending.len() > 0 ==> r == Some(
                old(self)@.pending[0],
            ) && final(self)@.pending == old(self)@.pending.drop_first() && final(self)@.in_flight
                == old(self)@.in_flight + 1,
            !(old(self)@.in_flight < old(self)@.limit && old(self)@.pending.len() > 0) ==> r is None
                && final(self)@ == old(self)@,
    {
        proof {
            use_type_invariant(&*self);
        }
        if self.in_flight < self.limit && self.pending.len() > 0 {
            let mut taken = FanOut { pending: Vec::new(), in_flight: 0, limit: 1 };
            core::mem::swap(self, &mut taken);
            let FanOut { pending, in_flight, limit } = taken;
            let mut pending = pending;
            let item = pending.remove(0);
            assert(pending@ =~= old(self).pending@.drop_first());
            *self = FanOut { pending, in_flight: in_flight + 1, limit };
            Some(item)
        } else {
            None
        }
    }

    /// Counts one item less as in flight; nothing changes where none is.
    pub fn finish(&mut self)
        ensures
            final(self)@.limit == old(self)@.limit,
            final(self)@.pending == old(self)@.pending,
            final(self)@.in_flight == if old(self)@.in_flight == 0 {
                0
            } else {
                old(self)@.in_flight - 1
            },
            final(self)@.in_flight <= final(self)@.limit,
    {
        proof {
            use_type_invariant(&*self);
        }
        if self.in_flight > 0 {
            self.in_flight = self.in_flight - 1;
        }
    }

    /// The number of items in flight.
    pub fn in_flight(&self) -> (r: usize)
        ensures
            r == self@.in_flight,
            r <= self@.limit,
    {
        proof {
            use_type_invariant(self);
        }
        self.in_flight
    }

    /// The limit.
    pub fn limit(&self) -> (r: usize)
        ensures
            r == self@.limit,
            r >= 1,
    {
        proof {
            use_type_invariant(self);
        }
        self.limit
    }

    /// Whether nothing waits and nothing is in flight.
    pub fn is_done(&self) -> (r: bool)
        ensures
            r == (self@.pending.len() == 0 && self@.in_flight == 0),
    {
        self.pending.len() == 0 && self.in_flight == 0
    }
}

} // verus!
