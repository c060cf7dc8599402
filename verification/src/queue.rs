//! Bounded first-in first-out queues: the input endpoint of every sink and of
//! every connected peer. An offer to a queue never blocks: it is taken or it
//! is turned away at once.

use vstd::prelude::*;
use std::collections::VecDeque;

verus! {

/// Why a queue turned an item away.
#[derive(Clone, Copy, Debug, PartialEq, Eq, Structural)]
pub enum SendError {
    /// The queue already holds as many items as its capacity allows.
    Full,
    /// The queue was closed.
    Closed,
}

/// What a queue is, to the contracts: its waiting items, oldest first, the
/// number of items it may hold, and whether it was closed.
pub ghost struct QueueState<T> {
    pub items: Seq<T>,
    pub capacity: nat,
    pub closed: bool,
}

impl<T> QueueState<T> {
    /// An open queue of the given capacity with nothing in it.
    pub open spec fn fresh(capacity: nat) -> Self {
        QueueState { items: Seq::empty(), capacity, closed: false }
    }

    /// The queue holds no more than its capacity.
    pub open spec fn bounded(self) -> bool {
        self.items.len() <= self.capacity
    }

    /// The queue takes another item: it is open and has room.
    pub open spec fn accepts(self) -> bool {
        !self.closed && self.items.len() < self.capacity
    }

    /// The answer to an offer: taken, or the reason it is turned away. A
    /// closed queue says so even when it is also full.
    pub open spec fn verdict(self) -> Result<(), SendError> {
        if self.closed {
            Err(SendError::Closed)
        } else if self.items.len() >= self.capacity {
            Err(SendError::Full)
        } else {
            Ok(())
        }
    }

    /// The queue after `item` was offered to it: appended where the queue
    /// accepts, dropped where it does not.
    pub open spec fn offer(self, item: T) -> Self {
        if self.accepts() {
            QueueState { items: self.items.push(item), ..self }
        } else {
            self
        }
    }

    /// The queue after the given items were offered to it one after the
    /// other, in order.
    pub open spec fn offer_all(self, items: Seq<T>) -> Self
        decreases items.len(),
    {
        if items.len() == 0 {
            self
        } else {
            self.offer_all(items.drop_last()).offer(items.last())
        }
    }

    /// The oldest waiting item, if there is one.
    pub open spec fn front(self) -> Option<T> {
        if self.items.len() > 0 {
            Some(self.items[0])
        } else {
            None
        }
    }

    /// The queue after its oldest item, if any, was taken out.
    pub open spec fn after_take(self) -> Self {
        if self.items.len() > 0 {
            QueueState { items: self.items.subrange(1, self.items.len() as int), ..self }
        } else {
            self
        }
    }

    /// The queue after it was closed: what waits in it can still be taken.
    pub open spec fn after_close(self) -> Self {
        QueueState { closed: true, ..self }
    }

    /// Nothing more will ever come out: the queue is closed and drained.
    pub open spec fn finished(self) -> bool {
        self.closed && self.items.len() == 0
    }
}

/// A fresh queue is within its bound.
pub proof fn lemma_fresh_is_bounded<T>(capacity: nat)
    ensures
        QueueState::<T>::fresh(capacity).bounded(),
{
}

/// No offer, take or close takes a queue beyond its capacity, and an offer
/// is taken exactly when the verdict is `Ok`.
pub proof fn lemma_queue_stays_bounded<T>(q: QueueState<T>, item: T)
    requires
        q.bounded(),
    ensures
        q.offer(item).bounded(),
        q.after_take().bounded(),
        q.after_close().bounded(),
        q.accepts() <==> q.verdict() is Ok,
{
}

/// Offering one more item after others is offering to the queue that the
/// others have left.
pub proof fn lemma_offer_all_push<T>(q: QueueState<T>, items: Seq<T>, item: T)
    ensures
        q.offer_all(items.push(item)) == q.offer_all(items).offer(item),
        q.offer_all(Seq::empty()) == q,
{
    assert(items.push(item).drop_last() =~= items);
}

/// Offers may be made in two batches: offering `first + second` is offering
/// `second` to the queue that `first` has left.
pub proof fn lemma_offer_all_concat<T>(q: QueueState<T>, first: Seq<T>, second: Seq<T>)
    ensures
        q.offer_all(first + second) == q.offer_all(first).offer_all(second),
    decreases second.len(),
{
    if second.len() == 0 {
        assert(first + second =~= first);
    } else {
        lemma_offer_all_concat(q, first, second.drop_last());
        assert((first + second).drop_last() =~= first + second.drop_last());
        assert((first + second).last() == second.last());
    }
}

/// While a queue is open and has room for all of them, it takes every item
/// offered: they are appended in the order of the offers.
pub proof fn lemma_offer_all_with_room<T>(q: QueueState<T>, items: Seq<T>)
    requires
        !q.closed,
        q.items.len() + items.len() <= q.capacity,
    ensures
        q.offer_all(items).items == q.items + items,
    decreases items.len(),
{
    if items.len() == 0 {
        assert(q.items + items =~= q.items);
    } else {
        lemma_offer_all_with_room(q, items.drop_last());
        lemma_offer_all_keeps_queue(q, items.drop_last());
        assert(q.offer_all(items).items =~= q.items + items);
    }
}

/// Offers never let go of what the queue held, never change its capacity,
/// never close or reopen it, and never take it beyond its capacity. A closed
/// queue stays exactly as it is.
pub proof fn lemma_offer_all_keeps_queue<T>(q: QueueState<T>, items: Seq<T>)
    ensures
        q.offer_all(items).items.len() >= q.items.len(),
        q.offer_all(items).items.subrange(0, q.items.len() as int) == q.items,
        q.offer_all(items).capacity == q.capacity,
        q.offer_all(items).closed == q.closed,
        q.bounded() ==> q.offer_all(items).bounded(),
        q.closed ==> q.offer_all(items) == q,
    decreases items.len(),
{
    if items.len() == 0 {
        assert(q.items.subrange(0, q.items.len() as int) =~= q.items);
    } else {
        lemma_offer_all_keeps_queue(q, items.drop_last());
        let before = q.offer_all(items.drop_last());
        assert(q.offer_all(items).items.subrange(0, q.items.len() as int)
            =~= before.items.subrange(0, q.items.len() as int));
    }
}

/// A bounded queue of `T`.
pub struct BoundedQueue<T> {
    items: VecDeque<T>,
    capacity: usize,
    closed: bool,
}

impl<T> View for BoundedQueue<T> {
    type V = QueueState<T>;

    closed spec fn view(&self) -> QueueState<T> {
        QueueState { items: self.items@, capacity: self.capacity as nat, closed: self.closed }
    }
}

impl<T> BoundedQueue<T> {
    #[verifier::type_invariant]
    spec fn within_capacity(self) -> bool {
        self.items@.len() <= self.capacity
    }

    /// An open, empty queue that holds at most `capacity` items.
    pub fn new(capacity: usize) -> (q: Self)
        ensures
            q@ == QueueState::<T>::fresh(capacity as nat),
    {
        BoundedQueue { items: VecDeque::new(), capacity, closed: false }
    }

    /// Offers `item` to the queue without waiting. The item is appended if
    /// the queue is open and has room; otherwise it is dropped and the
    /// reason is returned.
    pub fn try_send(&mut self, item: T) -> (r: Result<(), SendError>)
        ensures
            final(self)@ == old(self)@.offer(item),
            r == old(self)@.verdict(),
    {
        if self.closed {
            Err(SendError::Closed)
        } else if self.items.len() >= self.capacity {
            Err(SendError::Full)
        } else {
            let mut items: VecDeque<T> = VecDeque::new();
            std::mem::swap(&mut items, &mut self.items);
            items.push_back(item);
            self.items = items;
            Ok(())
        }
    }

    /// Takes the oldest waiting item out, if there is one. A closed queue
    /// still hands out what it holds.
    pub fn recv(&mut self) -> (r: Option<T>)
        ensures
            r == old(self)@.front(),
            final(self)@ == old(self)@.after_take(),
    {
        proof {
            use_type_invariant(&*self);
        }
        let mut items: VecDeque<T> = VecDeque::new();
        std::mem::swap(&mut items, &mut self.items);
        let r = items.pop_front();
        proof {
            if old(self)@.items.len() > 0 {
                assert(items@ =~= old(self)@.items.subrange(1, old(self)@.items.len() as int));
            }
        }
        self.items = items;
        r
    }

    /// Closes the queue: from now on every offer is turned away.
    pub fn close(&mut self)
        ensures
            final(self)@ == old(self)@.after_close(),
    {
        proof {
            use_type_invariant(&*self);
        }
        self.closed = true;
    }

    /// Number of waiting items. It never exceeds the capacity.
    pub fn len(&self) -> (n: usize)
        ensures
            n == self@.items.len(),
            self@.bounded(),
    {
        proof {
            use_type_invariant(self);
        }
        self.items.len()
    }

    /// Whether nothing waits.
    pub fn is_empty(&self) -> (b: bool)
        ensures
            b == (self@.items.len() == 0),
    {
        self.items.len() == 0
    }

    /// Whether the queue holds as many items as it may, so that it takes no
    /// more until one is taken out.
    pub fn is_full(&self) -> (b: bool)
        ensures
            b == (self@.items.len() == self@.capacity),
            self@.bounded(),
    {
        proof {
            use_type_invariant(self);
        }
        self.items.len() >= self.capacity
    }

    /// The most items the queue holds at once.
    pub fn capacity(&self) -> (n: usize)
        ensures
            n == self@.capacity,
    {
        self.capacity
    }

    /// Whether the queue was closed.
    pub fn is_closed(&self) -> (b: bool)
        ensures
            b == self@.closed,
    {
        self.closed
    }

    /// Whether the queue is closed and drained, so that its consumer stops.
    pub fn is_finished(&self) -> (b: bool)
        ensures
            b == self@.finished(),
    {
        self.closed && self.items.len() == 0
    }
}

} // verus!
