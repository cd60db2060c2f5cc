//! The bounded queue of commands between the widgets that send them and the
//! dispatcher that drains them once per cycle.
use vstd::prelude::*;

use crate::action::Action;

verus! {

/// How many commands the bus holds before it refuses more.
pub const BUS_CAPACITY: usize = 1000;

/// A bounded first-in first-out queue of commands. A send to a full bus is
/// refused and the command dropped: a sender never waits.
pub struct ActionBus {
    queue: Vec<Action>,
    capacity: usize,
}

/// The queued commands, oldest first, and the bound.
pub struct BusView {
    pub queue: Seq<Action>,
    pub capacity: usize,
}

impl View for ActionBus {
    type V = BusView;

    closed spec fn view(&self) -> BusView {
        BusView { queue: self.queue@, capacity: self.capacity }
    }
}

impl ActionBus {
    pub open spec fn wf(&self) -> bool {
        self@.queue.len() <= self@.capacity
    }

    /// An empty bus that holds up to `capacity` commands.
    pub fn new(capacity: usize) -> (r: ActionBus)
        ensures
            r.wf(),
            r@.queue.len() == 0,
            r@.capacity == capacity,
    {
        ActionBus { queue: Vec::new(), capacity }
    }

    /// Queues `action` unless the bus is full; tells whether it was queued.
    pub fn send(&mut self, action: Action) -> (r: bool)
        requires
            old(self).wf(),
        ensures
            final(self).wf(),
            final(self)@.capacity == old(self)@.capacity,
            r == (old(self)@.queue.len() < old(self)@.capacity),
            r ==> final(self)@.queue == old(self)@.queue.push(action),
            !r ==> final(self)@.queue == old(self)@.queue,
    {
        if self.queue.len() < self.capacity {
            self.queue.push(action);
            true
        } else {
            false
        }
    }

    /// Takes every queued command out, oldest first.
    pub fn drain_all(&mut self) -> (r: Vec<Action>)
        requires
            old(self).wf(),
        ensures
            final(self).wf(),
            r@ == old(self)@.queue,
            final(self)@.queue.len() == 0,
            final(self)@.capacity == old(self)@.capacity,
    {
        let mut out: Vec<Action> = Vec::new();
        std::mem::swap(&mut out, &mut self.queue);
        out
    }

    pub fn len(&self) -> (r: usize)
        ensures
            r == self@.queue.len(),
    {
        self.queue.len()
    }
}

} // verus!
