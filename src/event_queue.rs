use vstd::prelude::*;
use crate::types::{AobError, Event, OwnerCallback, Side};

verus! {

/// A lossless ring of events with a capacity fixed at creation.
///
/// `buf` holds the ring's slots; the unconsumed events are the `count` slots
/// that start at `head`, wrapping at the end of `buf`. Pushing into a full
/// queue fails and changes nothing. Peeking shows unconsumed events only and
/// never changes the queue.
pub struct EventQueue {
    buf: Vec<Event>,
    head: usize,
    count: usize,
}

/// The slot of the `i`-th unconsumed event.
pub open spec fn ring_slot(head: int, i: int, cap: int) -> int {
    if head + i < cap {
        head + i
    } else {
        head + i - cap
    }
}

impl View for EventQueue {
    type V = Seq<Event>;

    /// The unconsumed events, oldest first.
    closed spec fn view(&self) -> Seq<Event> {
        Seq::new(self.count as nat, |i: int| self.buf@[ring_slot(self.head as int, i, self.buf@.len() as int)])
    }
}

/// An event that fills unused slots.
fn blank_event() -> Event {
    Event::Out { side: Side::Bid, order_id: 0, base_size: 0, callback: OwnerCallback { pk: [0u8; 32] } }
}

impl EventQueue {
    /// The number of events the queue can hold.
    pub closed spec fn capacity_spec(&self) -> nat {
        self.buf@.len()
    }

    pub closed spec fn wf(&self) -> bool {
        &&& self.count <= self.buf@.len()
        &&& (self.head < self.buf@.len() || (self.head == 0 && self.buf@.len() == 0))
    }

    /// An empty queue with room for `capacity` events.
    pub fn new(capacity: usize) -> (r: EventQueue)
        ensures
            r.wf(),
            r@ == Seq::<Event>::empty(),
            r.capacity_spec() == capacity,
    {
        let mut buf: Vec<Event> = Vec::with_capacity(capacity);
        let mut i: usize = 0;
        while i < capacity
            invariant
                i <= capacity,
                buf@.len() == i,
            decreases capacity - i,
        {
            buf.push(blank_event());
            i = i + 1;
        }
        let r = EventQueue { buf, head: 0, count: 0 };
        assert(r@ =~= Seq::<Event>::empty());
        r
    }

    /// A separate queue with the same events, to work on before committing.
    pub fn duplicate(&self) -> (r: EventQueue)
        requires
            self.wf(),
        ensures
            r.wf(),
            r@ == self@,
            r.capacity_spec() == self.capacity_spec(),
    {
        let mut buf: Vec<Event> = Vec::new();
        let mut i: usize = 0;
        while i < self.buf.len()
            invariant
                i <= self.buf@.len(),
                buf@ == self.buf@.subrange(0, i as int),
            decreases self.buf@.len() - i,
        {
            buf.push(self.buf[i]);
            i = i + 1;
            assert(buf@ =~= self.buf@.subrange(0, i as int));
        }
        assert(buf@ =~= self.buf@);
        let r = EventQueue { buf, head: self.head, count: self.count };
        assert(r@ =~= self@);
        r
    }

    pub fn capacity(&self) -> (r: usize)
        ensures
            r == self.capacity_spec(),
    {
        self.buf.len()
    }

    pub fn len(&self) -> (r: usize)
        ensures
            r == self@.len(),
    {
        self.count
    }

    pub fn is_empty(&self) -> (r: bool)
        ensures
            r == (self@.len() == 0),
    {
        self.count == 0
    }

    /// Appends an event, or fails with `QueueFull` and leaves the queue as it was.
    pub fn push(&mut self, e: Event) -> (r: Result<(), AobError>)
        requires
            old(self).wf(),
        ensures
            final(self).wf(),
            final(self).capacity_spec() == old(self).capacity_spec(),
            old(self)@.len() < old(self).capacity_spec() ==> r == Ok::<(), AobError>(()) && final(self)@ == old(self)@.push(e),
            old(self)@.len() >= old(self).capacity_spec() ==> r == Err::<(), AobError>(AobError::QueueFull) && *final(self) == *old(self),
    {
        let cap = self.buf.len();
        if self.count >= cap {
            return Err(AobError::QueueFull);
        }
        let slot: usize = if self.count < cap - self.head {
            self.head + self.count
        } else {
            self.count - (cap - self.head)
        };
        let ghost before = self@;
        self.buf.set(slot, e);
        self.count = self.count + 1;
        assert(self@ =~= before.push(e));
        Ok(())
    }

    /// Removes and returns the oldest event, or `None` when the queue is empty.
    pub fn pop_front(&mut self) -> (r: Option<Event>)
        requires
            old(self).wf(),
        ensures
            final(self).wf(),
            final(self).capacity_spec() == old(self).capacity_spec(),
            old(self)@.len() == 0 ==> r == None::<Event> && final(self)@ == old(self)@,
            old(self)@.len() > 0 ==> r == Some(old(self)@[0]) && final(self)@ == old(self)@.drop_first(),
    {
        if self.count == 0 {
            return None;
        }
        let e = self.buf[self.head];
        let ghost before = self@;
        self.head = if self.head < self.buf.len() - 1 {
            self.head + 1
        } else {
            0
        };
        self.count = self.count - 1;
        assert(self@ =~= before.drop_first());
        Some(e)
    }

    /// The `i`-th unconsumed event, oldest first, without consuming anything.
    pub fn peek_at(&self, i: usize) -> (r: Option<Event>)
        requires
            self.wf(),
        ensures
            i < self@.len() ==> r == Some(self@[i as int]),
            i >= self@.len() ==> r == None::<Event>,
    {
        if i >= self.count {
            return None;
        }
        let cap = self.buf.len();
        let slot: usize = if i < cap - self.head {
            self.head + i
        } else {
            i - (cap - self.head)
        };
        Some(self.buf[slot])
    }
}

} // verus!
