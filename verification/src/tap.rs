//! A tap on a queue: what comes out of it, one after the other.
use crossbeam_queue::ArrayQueue;
use vstd::prelude::*;

verus! {

/// Whether a tap on the queue gave these outcomes, in this order. Only a tap can tell:
/// nothing else shows it, of any outcomes in any other order.
pub closed spec fn gave<T>(queue: &ArrayQueue<T>, outcomes: Seq<Option<T>>) -> bool {
    forall|i: int|
        0 <= i < outcomes.len() ==> call_ensures(
            ArrayQueue::<T>::pop,
            (queue,),
            #[trigger] outcomes[i],
        )
}

/// Pops a queue and keeps a record of what came out.
#[verifier::reject_recursive_types(T)]
pub(crate) struct Tap<'a, T> {
    queue: &'a ArrayQueue<T>,
    record: Ghost<Seq<Option<T>>>,
}

impl<'a, T> Tap<'a, T> {
    pub closed spec fn queue(self) -> &'a ArrayQueue<T> {
        self.queue
    }

    /// What came out so far, in order.
    pub closed spec fn outcomes(self) -> Seq<Option<T>> {
        self.record@
    }

    pub closed spec fn wf(self) -> bool {
        gave(self.queue, self.record@)
    }

    pub proof fn lemma_gave(self)
        requires
            self.wf(),
        ensures
            gave(self.queue(), self.outcomes()),
    {
    }

    pub fn new(queue: &'a ArrayQueue<T>) -> (t: Self)
        ensures
            t.wf(),
            t.queue() == queue,
            t.outcomes() == Seq::<Option<T>>::empty(),
    {
        Tap { queue, record: Ghost(Seq::empty()) }
    }

    /// Pops the queue. What comes out goes on the record.
    pub fn pop(&mut self) -> (r: Option<T>)
        requires
            old(self).wf(),
        ensures
            final(self).wf(),
            final(self).queue() == old(self).queue(),
            final(self).outcomes() == old(self).outcomes().push(r),
            call_ensures(ArrayQueue::<T>::pop, (old(self).queue(),), r),
    {
        let r = self.queue.pop();
        self.record = Ghost(self.record@.push(r));
        r
    }
}

} // verus!
