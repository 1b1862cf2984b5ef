//! A simple in-process event bus: one shared publish endpoint, any
//! number of independently created subscriber queues, and a pump that
//! hands queued events to every subscriber once per call.

use vstd::prelude::*;

verus! {

/// An in-process publish/subscribe relay. Events sent since the last
/// pump sit in a pending queue; `process` appends them, in order, to
/// every subscriber's queue.
pub struct SimpleEventBus<E> {
    pending: Vec<E>,
    subscribers: Vec<Vec<E>>,
}

impl<E: Copy> SimpleEventBus<E> {
    /// The events sent but not yet pumped, in order.
    pub closed spec fn pending_view(&self) -> Seq<E> {
        self.pending@
    }

    /// The queued events of each subscriber, in order.
    pub closed spec fn queues(&self) -> Seq<Seq<E>> {
        Seq::new(self.subscribers@.len(), |k: int| self.subscribers@[k]@)
    }

    /// A bus with no subscribers and nothing pending.
    pub fn new() -> (r: SimpleEventBus<E>)
        ensures
            r.pending_view().len() == 0,
            r.queues().len() == 0,
    {
        SimpleEventBus { pending: Vec::new(), subscribers: Vec::new() }
    }

    /// Registers a new subscriber; it will receive every event published
    /// after this call. Returns the subscriber's id.
    pub fn subscribe(&mut self) -> (id: usize)
        ensures
            id == old(self).queues().len(),
            final(self).queues() == old(self).queues().push(Seq::empty()),
            final(self).pending_view() == old(self).pending_view(),
    {
        let id = self.subscribers.len();
        self.subscribers.push(Vec::new());
        proof {
            assert(self.queues() =~= old(self).queues().push(Seq::empty()));
        }
        id
    }

    /// Publishes one event onto the shared pending queue.
    pub fn send(&mut self, e: E)
        ensures
            final(self).pending_view() == old(self).pending_view().push(e),
            final(self).queues() == old(self).queues(),
    {
        self.pending.push(e);
        proof {
            assert(self.queues() =~= old(self).queues());
        }
    }

    /// Pumps the queued events out to all subscribers: every pending
    /// event is appended, in order, to every subscriber's queue, and the
    /// pending queue empties.
    pub fn process(&mut self)
        ensures
            final(self).pending_view().len() == 0,
            final(self).queues().len() == old(self).queues().len(),
            forall|k: int|
                0 <= k < final(self).queues().len() ==> #[trigger] final(self).queues()[k] == old(
                    self,
                ).queues()[k] + old(self).pending_view(),
    {
        let ghost pre = *self;
        let mut k: usize = 0;
        while k < self.subscribers.len()
            invariant
                k <= self.subscribers@.len(),
                self.subscribers@.len() == pre.queues().len(),
                self.pending@ == pre.pending_view(),
                forall|j: int|
                    0 <= j < k ==> #[trigger] self.queues()[j] == pre.queues()[j]
                        + pre.pending_view(),
                forall|j: int|
                    k <= j < self.subscribers@.len() ==> #[trigger] self.queues()[j]
                        == pre.queues()[j],
            decreases self.subscribers@.len() - k,
        {
            let mut i: usize = 0;
            while i < self.pending.len()
                invariant
                    k < self.subscribers@.len(),
                    i <= self.pending@.len(),
                    self.subscribers@.len() == pre.queues().len(),
                    self.pending@ == pre.pending_view(),
                    self.queues()[k as int] == pre.queues()[k as int] + pre.pending_view().subrange(
                        0,
                        i as int,
                    ),
                    forall|j: int|
                        0 <= j < k ==> #[trigger] self.queues()[j] == pre.queues()[j]
                            + pre.pending_view(),
                    forall|j: int|
                        k < j < self.subscribers@.len() ==> #[trigger] self.queues()[j]
                            == pre.queues()[j],
                decreases self.pending@.len() - i,
            {
                let e = self.pending[i];
                let ghost before = self.queues();
                let sub = &mut self.subscribers[k];
                sub.push(e);
                proof {
                    assert forall|j: int|
                        0 <= j < self.subscribers@.len() && j != k implies #[trigger] self.queues()[j]
                        == before[j] by {}
                    assert(self.queues()[k as int] =~= pre.queues()[k as int]
                        + pre.pending_view().subrange(0, i + 1));
                }
                i = i + 1;
            }
            proof {
                assert(pre.pending_view().subrange(0, pre.pending_view().len() as int)
                    =~= pre.pending_view());
            }
            k = k + 1;
        }
        let ghost qend = self.queues();
        self.pending = Vec::new();
        proof {
            assert(self.queues() =~= qend);
            assert forall|j: int|
                0 <= j < self.queues().len() implies #[trigger] self.queues()[j] == pre.queues()[j]
                + pre.pending_view() by {
                assert(qend[j] == pre.queues()[j] + pre.pending_view());
            }
        }
    }

    /// Drains and returns everything queued for one subscriber.
    pub fn poll_all(&mut self, id: usize) -> (r: Vec<E>)
        requires
            id < old(self).queues().len(),
        ensures
            r@ == old(self).queues()[id as int],
            final(self).pending_view() == old(self).pending_view(),
            final(self).queues().len() == old(self).queues().len(),
            final(self).queues()[id as int].len() == 0,
            forall|k: int|
                0 <= k < final(self).queues().len() && k != id ==> #[trigger] final(self).queues()[k] == old(self).queues()[k],
    {
        let mut taken: Vec<E> = Vec::new();
        let sub = &mut self.subscribers[id];
        std::mem::swap(&mut taken, sub);
        proof {
            assert forall|k: int|
                0 <= k < self.queues().len() && k != id implies #[trigger] self.queues()[k] == old(
                self,
            ).queues()[k] by {}
        }
        taken
    }
}

} // verus!
