//! Wait-free queues between two threads.
//!
//! The queue is `rtrb`'s. Each half is held here with its own history: what the
//! sending half has put in, and what the receiving half has taken out. Neither
//! half knows how far the other has come; it knows of room, or of waiting items,
//! that the other cannot take away again. Where both halves are at hand,
//! [`meet`] compares the two histories.

use vstd::prelude::*;

verus! {

/// The sending half of an `rtrb` queue, as a type with nothing known of it.
#[verifier::external_type_specification]
#[verifier::external_body]
#[verifier::reject_recursive_types(T)]
pub struct ExProducer<T>(rtrb::Producer<T>);

/// The receiving half of an `rtrb` queue, as a type with nothing known of it.
#[verifier::external_type_specification]
#[verifier::external_body]
#[verifier::reject_recursive_types(T)]
pub struct ExConsumer<T>(rtrb::Consumer<T>);

/// A queue of `capacity` items of type `T` can be addressed at all.
pub open spec fn fits<T>(capacity: int) -> bool {
    &&& capacity * 2 <= usize::MAX
    &&& capacity * vstd::layout::size_of::<T>() <= isize::MAX
}

/// Whether a queue of `capacity` items can be made.
pub fn ring_fits<T>(capacity: usize) -> (r: bool)
    ensures
        r == fits::<T>(capacity as int),
{
    let size: usize = core::mem::size_of::<T>();
    if capacity > usize::MAX / 2 {
        return false;
    }
    match capacity.checked_mul(size) {
        Some(bytes) => bytes <= isize::MAX as usize,
        None => false,
    }
}

/// `n` less `k`, and not below zero.
pub open spec fn less(n: nat, k: nat) -> nat {
    if n > k {
        (n - k) as nat
    } else {
        0
    }
}

/// The sending half.
#[verifier::reject_recursive_types(T)]
pub struct Outbox<T> {
    producer: rtrb::Producer<T>,
    queue: Ghost<int>,
    capacity: Ghost<nat>,
    accepted: Ghost<Seq<T>>,
    room: Ghost<nat>,
}

/// The receiving half.
#[verifier::reject_recursive_types(T)]
pub struct Inbox<T> {
    consumer: rtrb::Consumer<T>,
    queue: Ghost<int>,
    capacity: Ghost<nat>,
    received: Ghost<Seq<T>>,
    ready: Ghost<nat>,
}

/// Both halves are of one queue and have been compared: what came out is the
/// first part of what went in, the rest of it waits, and the room that it
/// leaves is free.
pub open spec fn in_step<T>(outbox: Outbox<T>, inbox: Inbox<T>) -> bool {
    &&& outbox.queue() == inbox.queue()
    &&& outbox.capacity() == inbox.capacity()
    &&& inbox.received().is_prefix_of(outbox.accepted())
    &&& inbox.taken() + inbox.ready() == outbox.sent()
    &&& inbox.ready() + outbox.room() == outbox.capacity()
}

impl<T> Outbox<T> {
    /// Which queue this is a half of.
    pub closed spec fn queue(&self) -> int {
        self.queue@
    }

    pub closed spec fn capacity(&self) -> nat {
        self.capacity@
    }

    /// The items the queue has accepted, in order.
    pub closed spec fn accepted(&self) -> Seq<T> {
        self.accepted@
    }

    /// How many items the queue has accepted.
    pub open spec fn sent(&self) -> nat {
        self.accepted().len()
    }

    /// How many slots are known to be free. More may be.
    pub closed spec fn room(&self) -> nat {
        self.room@
    }

    pub open spec fn wf(&self) -> bool {
        self.room() <= self.capacity()
    }

    /// Calls `rtrb::Producer::push`. It either puts the item in, or hands it
    /// back because the queue is full; it does not find it full while slots are
    /// known to be free. Whether more have become free depends on the receiving
    /// thread.
    #[verifier::external_body]
    pub(crate) fn try_push(&mut self, item: T) -> (r: Result<(), T>)
        requires
            old(self).wf(),
        ensures
            final(self).wf(),
            final(self).queue() == old(self).queue(),
            final(self).capacity() == old(self).capacity(),
            r is Ok ==> final(self).accepted() == old(self).accepted().push(item)
                && final(self).room() == less(old(self).room(), 1),
            r matches Err(back) ==> back == item && final(self).accepted() == old(
                self,
            ).accepted() && old(self).room() == 0 && final(self).room() == 0,
    {
        match self.producer.push(item) {
            Ok(()) => Ok(()),
            Err(rtrb::PushError::Full(back)) => Err(back),
        }
    }

    /// Calls `rtrb::Producer::slots`: that many slots are free, and stay so
    /// until they are used here.
    #[verifier::external_body]
    fn free(&mut self) -> (r: usize)
        requires
            old(self).wf(),
        ensures
            final(self).wf(),
            final(self).queue() == old(self).queue(),
            final(self).capacity() == old(self).capacity(),
            final(self).accepted() == old(self).accepted(),
            final(self).room() == r,
            r >= old(self).room(),
    {
        self.producer.slots()
    }

    /// Puts one item in, or hands it back where the queue is full.
    pub fn push(&mut self, item: T) -> (r: Result<(), T>)
        requires
            old(self).wf(),
        ensures
            final(self).wf(),
            final(self).queue() == old(self).queue(),
            final(self).capacity() == old(self).capacity(),
            final(self).room() == less(old(self).room(), 1),
            r is Ok ==> final(self).accepted() == old(self).accepted().push(item),
            r matches Err(back) ==> back == item && final(self).accepted() == old(
                self,
            ).accepted(),
            old(self).room() > 0 ==> r is Ok,
    {
        self.try_push(item)
    }

    /// How many slots are free. From here on they are known to be.
    pub fn free_slots(&mut self) -> (r: usize)
        requires
            old(self).wf(),
        ensures
            final(self).wf(),
            final(self).queue() == old(self).queue(),
            final(self).capacity() == old(self).capacity(),
            final(self).accepted() == old(self).accepted(),
            final(self).room() == r,
            r >= old(self).room(),
            r <= old(self).capacity(),
    {
        self.free()
    }
}

impl<T> Inbox<T> {
    /// Which queue this is a half of.
    pub closed spec fn queue(&self) -> int {
        self.queue@
    }

    pub closed spec fn capacity(&self) -> nat {
        self.capacity@
    }

    /// The items taken out, in order.
    pub closed spec fn received(&self) -> Seq<T> {
        self.received@
    }

    /// How many items have been taken out.
    pub open spec fn taken(&self) -> nat {
        self.received().len()
    }

    /// How many items are known to be waiting. More may be.
    pub closed spec fn ready(&self) -> nat {
        self.ready@
    }

    pub open spec fn wf(&self) -> bool {
        self.ready() <= self.capacity()
    }

    /// Calls `rtrb::Consumer::pop`. It takes the next item out, or finds the
    /// queue empty; it does not find it empty while items are known to be
    /// waiting. Whether more have arrived depends on the sending thread.
    #[verifier::external_body]
    pub(crate) fn try_pop(&mut self) -> (r: Option<T>)
        requires
            old(self).wf(),
        ensures
            final(self).wf(),
            final(self).queue() == old(self).queue(),
            final(self).capacity() == old(self).capacity(),
            r matches Some(item) ==> final(self).received() == old(self).received().push(item)
                && final(self).ready() == less(old(self).ready(), 1),
            r is None ==> final(self).received() == old(self).received() && old(self).ready() == 0
                && final(self).ready() == 0,
    {
        self.consumer.pop().ok()
    }

    /// Calls `rtrb::Consumer::slots`: that many items are waiting, and stay so
    /// until they are taken out here.
    #[verifier::external_body]
    pub(crate) fn waiting(&mut self) -> (r: usize)
        requires
            old(self).wf(),
        ensures
            final(self).wf(),
            final(self).queue() == old(self).queue(),
            final(self).capacity() == old(self).capacity(),
            final(self).received() == old(self).received(),
            final(self).ready() == r,
            r >= old(self).ready(),
    {
        self.consumer.slots()
    }

    /// Takes the next item out, or finds the queue empty.
    pub fn pop(&mut self) -> (r: Option<T>)
        requires
            old(self).wf(),
        ensures
            final(self).wf(),
            final(self).queue() == old(self).queue(),
            final(self).capacity() == old(self).capacity(),
            final(self).ready() == less(old(self).ready(), 1),
            r matches Some(item) ==> final(self).received() == old(self).received().push(item),
            r is None ==> final(self).received() == old(self).received(),
            old(self).ready() > 0 ==> r is Some,
    {
        self.try_pop()
    }

    /// How many items are waiting. From here on they are known to be.
    pub fn waiting_items(&mut self) -> (r: usize)
        requires
            old(self).wf(),
        ensures
            final(self).wf(),
            final(self).queue() == old(self).queue(),
            final(self).capacity() == old(self).capacity(),
            final(self).received() == old(self).received(),
            final(self).ready() == r,
            r >= old(self).ready(),
            r <= old(self).capacity(),
    {
        self.waiting()
    }
}

/// Compares `rtrb::Producer::buffer` with `rtrb::Consumer::buffer`, which are
/// equal if and only if the two are the halves of one queue. A queue hands its
/// items out in the order it took them in and never holds more than its
/// capacity; and with both halves borrowed here nothing is on its way, so what
/// went in and has not come out is what waits.
#[verifier::external_body]
fn same_buffer<T>(outbox: &mut Outbox<T>, inbox: &mut Inbox<T>) -> (r: bool)
    requires
        old(outbox).wf(),
        old(inbox).wf(),
    ensures
        r == (old(outbox).queue() == old(inbox).queue()),
        r ==> in_step(*final(outbox), *final(inbox)),
        final(outbox).queue() == old(outbox).queue(),
        final(outbox).capacity() == old(outbox).capacity(),
        final(outbox).accepted() == old(outbox).accepted(),
        final(outbox).room() >= old(outbox).room(),
        final(outbox).wf(),
        final(inbox).queue() == old(inbox).queue(),
        final(inbox).capacity() == old(inbox).capacity(),
        final(inbox).received() == old(inbox).received(),
        final(inbox).ready() >= old(inbox).ready(),
        final(inbox).wf(),
{
    outbox.producer.buffer() == inbox.consumer.buffer()
}

/// Whether the two are the halves of one queue. If they are, what has come out
/// is the first part of what has gone in, and both halves know from here on how
/// much waits and how much is free.
pub fn meet<T>(outbox: &mut Outbox<T>, inbox: &mut Inbox<T>) -> (r: bool)
    requires
        old(outbox).wf(),
        old(inbox).wf(),
    ensures
        r == (old(outbox).queue() == old(inbox).queue()),
        r ==> in_step(*final(outbox), *final(inbox)),
        final(outbox).queue() == old(outbox).queue(),
        final(outbox).capacity() == old(outbox).capacity(),
        final(outbox).accepted() == old(outbox).accepted(),
        final(outbox).room() >= old(outbox).room(),
        final(outbox).wf(),
        final(inbox).queue() == old(inbox).queue(),
        final(inbox).capacity() == old(inbox).capacity(),
        final(inbox).received() == old(inbox).received(),
        final(inbox).ready() >= old(inbox).ready(),
        final(inbox).wf(),
{
    same_buffer(outbox, inbox)
}

/// Calls `rtrb::RingBuffer::new`, which panics where a queue of that capacity
/// cannot be addressed. The two it returns are the halves of one new queue with
/// `capacity` slots: nothing sent, nothing received, all of it free.
#[verifier::external_body]
fn new_halves<T>(capacity: usize) -> (r: (Outbox<T>, Inbox<T>))
    requires
        fits::<T>(capacity as int),
    ensures
        r.0.wf(),
        r.1.wf(),
        r.0.capacity() == capacity,
        r.0.accepted() == Seq::<T>::empty(),
        r.1.received() == Seq::<T>::empty(),
        in_step(r.0, r.1),
{
    let (producer, consumer) = rtrb::RingBuffer::new(capacity);
    let (queue, all) = (Ghost(0), Ghost(capacity as nat));
    let (accepted, received) = (Ghost(Seq::empty()), Ghost(Seq::empty()));
    (
        Outbox { producer, queue, capacity: all, accepted, room: all },
        Inbox { consumer, queue, capacity: all, received, ready: Ghost(0) },
    )
}

/// A queue for `capacity` items: nothing sent, nothing received, all of it
/// free.
pub fn channel<T>(capacity: usize) -> (r: (Outbox<T>, Inbox<T>))
    requires
        fits::<T>(capacity as int),
    ensures
        r.0.wf(),
        r.1.wf(),
        r.0.capacity() == capacity,
        r.0.accepted() == Seq::<T>::empty(),
        r.1.received() == Seq::<T>::empty(),
        in_step(r.0, r.1),
{
    new_halves(capacity)
}

/// What comes out is what went in, in the same order: of the items taken out,
/// each one is the item that was put in at that place.
pub proof fn law_first_in_first_out<T>(outbox: Outbox<T>, inbox: Inbox<T>, i: int)
    requires
        in_step(outbox, inbox),
        0 <= i < inbox.taken(),
    ensures
        i < outbox.sent(),
        inbox.received()[i] == outbox.accepted()[i],
{
}

} // verus!
