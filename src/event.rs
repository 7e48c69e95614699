//! Events that connection handlers produce, and the bounded first-in,
//! first-out queue that carries them to the dispatcher.

use vstd::prelude::*;
use std::collections::VecDeque;
use crate::wire::to_bytes;

verus! {

/// Room for this many events in flight before producers must wait.
pub const QUEUE_CAPACITY: usize = 1000;

/// What happened to a client.
#[derive(Clone, Copy, Debug, PartialEq, Eq, Structural)]
pub enum EventKind {
    /// It has registered and joins the room.
    Enter,
    /// It has sent a chat line.
    Relay,
    /// Its connection has ended.
    Exit,
}

/// One thing that happened to one client.
#[derive(Debug)]
pub struct Event {
    pub kind: EventKind,
    /// The name of the client it happened to.
    pub sender: Vec<u8>,
    /// The chat line of a `Relay`; empty for the other kinds.
    pub payload: Vec<u8>,
}

impl View for Event {
    type V = (EventKind, Seq<u8>, Seq<u8>);

    open spec fn view(&self) -> (EventKind, Seq<u8>, Seq<u8>) {
        (self.kind, self.sender@, self.payload@)
    }
}

impl Event {
    /// `sender` joins the room.
    pub fn enter(sender: &[u8]) -> (r: Event)
        ensures
            r@ == (EventKind::Enter, sender@, Seq::<u8>::empty()),
    {
        let r = Event { kind: EventKind::Enter, sender: to_bytes(sender), payload: Vec::new() };
        assert(r.payload@ =~= Seq::<u8>::empty());
        r
    }

    /// `sender` says `payload` to the others.
    pub fn relay(sender: &[u8], payload: Vec<u8>) -> (r: Event)
        ensures
            r@ == (EventKind::Relay, sender@, payload@),
    {
        Event { kind: EventKind::Relay, sender: to_bytes(sender), payload }
    }

    /// `sender` leaves the room.
    pub fn exit(sender: &[u8]) -> (r: Event)
        ensures
            r@ == (EventKind::Exit, sender@, Seq::<u8>::empty()),
    {
        let r = Event { kind: EventKind::Exit, sender: to_bytes(sender), payload: Vec::new() };
        assert(r.payload@ =~= Seq::<u8>::empty());
        r
    }
}

/// A bounded queue of events, taken out in the order they were put in.
pub struct EventQueue {
    items: VecDeque<Event>,
    capacity: usize,
}

impl EventQueue {
    /// The events waiting, oldest first.
    pub closed spec fn pending(&self) -> Seq<Event> {
        self.items@
    }

    /// The most events the queue holds at once.
    pub closed spec fn bound(&self) -> nat {
        self.capacity as nat
    }

    /// No more events are waiting than the bound allows.
    pub open spec fn wf(&self) -> bool {
        self.pending().len() <= self.bound()
    }

    /// An empty queue that holds at most `capacity` events.
    pub fn new(capacity: usize) -> (r: Self)
        ensures
            r.wf(),
            r.pending() == Seq::<Event>::empty(),
            r.bound() == capacity,
    {
        EventQueue { items: VecDeque::new(), capacity }
    }

    /// The number of events waiting.
    pub fn len(&self) -> (r: usize)
        ensures
            r == self.pending().len(),
    {
        self.items.len()
    }

    /// Whether no event is waiting.
    pub fn is_empty(&self) -> (r: bool)
        ensures
            r == (self.pending().len() == 0),
    {
        self.items.len() == 0
    }

    /// Whether the queue has no room for another event.
    pub fn is_full(&self) -> (r: bool)
        requires
            self.wf(),
        ensures
            r == (self.pending().len() == self.bound()),
    {
        self.items.len() >= self.capacity
    }

    /// Puts `e` behind every waiting event; when the queue is full it is
    /// handed back unchanged and the producer must wait.
    pub fn push(&mut self, e: Event) -> (r: Result<(), Event>)
        requires
            old(self).wf(),
        ensures
            final(self).wf(),
            final(self).bound() == old(self).bound(),
            r is Ok <==> old(self).pending().len() < old(self).bound(),
            r is Ok ==> final(self).pending() == old(self).pending().push(e),
            r matches Err(back) ==> back == e && final(self).pending() == old(self).pending(),
    {
        if self.items.len() >= self.capacity {
            return Err(e);
        }
        self.items.push_back(e);
        Ok(())
    }

    /// Takes out every waiting event at once, oldest first, into a queue of
    /// the same bound; this queue is left empty.
    pub fn take_all(&mut self) -> (r: EventQueue)
        requires
            old(self).wf(),
        ensures
            final(self).wf(),
            r.wf(),
            final(self).bound() == old(self).bound(),
            r.bound() == old(self).bound(),
            r.pending() == old(self).pending(),
            final(self).pending() == Seq::<Event>::empty(),
    {
        let mut items: VecDeque<Event> = VecDeque::new();
        std::mem::swap(&mut items, &mut self.items);
        EventQueue { items, capacity: self.capacity }
    }

    /// Takes out the oldest waiting event.
    pub fn pop(&mut self) -> (r: Option<Event>)
        requires
            old(self).wf(),
        ensures
            final(self).wf(),
            final(self).bound() == old(self).bound(),
            old(self).pending().len() == 0 ==> r is None && final(self).pending() == old(self).pending(),
            old(self).pending().len() > 0 ==> r == Some(old(self).pending()[0])
                && final(self).pending() == old(self).pending().drop_first(),
    {
        let r = self.items.pop_front();
        proof {
            if old(self).pending().len() > 0 {
                assert(self.pending() =~= old(self).pending().drop_first());
            }
        }
        r
    }
}

} // verus!
