//! The queues between the threads of the gateway.
//!
//! A queue changes under shared references and other threads' hands, so nothing is
//! said of what it holds. What is said of one is the room it was made with.
use crate::orderbook::BboUpdate;
use crate::protocol::ItchEvent;
use crossbeam_queue::ArrayQueue;
use std::sync::Arc;
use vstd::prelude::*;

verus! {

pub const EVENT_QUEUE_CAP: usize = 65536;

pub const BBO_QUEUE_CAP: usize = 16384;

#[verifier::external_type_specification]
#[verifier::external_body]
#[verifier::reject_recursive_types(T)]
pub struct ExArrayQueue<T>(ArrayQueue<T>);

/// How many events a queue was made for.
pub uninterp spec fn event_capacity(q: ArrayQueue<ItchEvent>) -> nat;

/// How many updates a queue was made for.
pub uninterp spec fn bbo_capacity(q: ArrayQueue<BboUpdate>) -> nat;

/// `ArrayQueue::new`: a queue with room for `cap` events. The call panics where
/// there is room for none or for too many. That the queue is empty at first is
/// left unsaid, as other threads may fill it from then on.
#[verifier::external_body]
fn event_queue(cap: usize) -> (q: ArrayQueue<ItchEvent>)
    requires
        0 < cap <= 0x1_0000,
    ensures
        event_capacity(q) == cap,
{
    ArrayQueue::new(cap)
}

/// `ArrayQueue::new`: a queue with room for `cap` updates. The call panics where
/// there is room for none or for too many. That the queue is empty at first is
/// left unsaid, as other threads may fill it from then on.
#[verifier::external_body]
fn bbo_queue(cap: usize) -> (q: ArrayQueue<BboUpdate>)
    requires
        0 < cap <= 0x1_0000,
    ensures
        bbo_capacity(q) == cap,
{
    ArrayQueue::new(cap)
}

/// `ArrayQueue::push`: where the queue does not take the value, it hands it back.
/// Whether it takes it depends on what it holds at that moment, of which nothing is
/// said.
pub assume_specification<T>[ ArrayQueue::<T>::push ](q: &ArrayQueue<T>, value: T) -> (r: Result<
    (),
    T,
>)
    ensures
        r matches Err(back) ==> back == value,
;

/// `ArrayQueue::pop`: some value that the queue held, or none. Which one depends on
/// what other threads do with the queue, of which nothing is said.
pub assume_specification<T>[ ArrayQueue::<T>::pop ](q: &ArrayQueue<T>) -> (r: Option<T>)
;

/// The queues that lead into and out of the thread that keeps the books.
pub struct Pipeline {
    pub event_tx: Arc<ArrayQueue<ItchEvent>>,
    pub bbo_rx: Arc<ArrayQueue<BboUpdate>>,
}

impl Pipeline {
    pub fn new() -> (p: Self)
        ensures
            event_capacity(*p.event_tx) == EVENT_QUEUE_CAP,
            bbo_capacity(*p.bbo_rx) == BBO_QUEUE_CAP,
    {
        Pipeline {
            event_tx: Arc::new(event_queue(EVENT_QUEUE_CAP)),
            bbo_rx: Arc::new(bbo_queue(BBO_QUEUE_CAP)),
        }
    }

    /// Puts an event in the queue of events. What comes of it is what the queue makes
    /// of that event: where it is full, the event comes back.
    pub fn push_event(&self, event: ItchEvent) -> (r: Result<(), ItchEvent>)
        ensures
            r matches Err(back) ==> back == event,
            call_ensures(ArrayQueue::<ItchEvent>::push, (&*self.event_tx, event), r),
    {
        self.event_tx.push(event)
    }

    /// Takes the next update out of the queue of updates, where there is one. What
    /// comes out is what that queue gives; which update it is is left unsaid.
    pub fn pop_bbo(&self) -> (r: Option<BboUpdate>)
        ensures
            call_ensures(ArrayQueue::<BboUpdate>::pop, (&*self.bbo_rx,), r),
    {
        self.bbo_rx.pop()
    }
}

impl Default for Pipeline {
    fn default() -> (p: Self)
        ensures
            event_capacity(*p.event_tx) == EVENT_QUEUE_CAP,
            bbo_capacity(*p.bbo_rx) == BBO_QUEUE_CAP,
    {
        Pipeline::new()
    }
}

} // verus!
