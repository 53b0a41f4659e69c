//! Blocking queue adapter: a double-ended sequence behind the uniform
//! push/pop contract, the baseline the lock-free designs are measured
//! against.
//!
//! The serializing lock is the concurrency shell around this core and lives
//! with the harness, which wraps the queue in one; here exclusive access is
//! what `&mut self` grants, and the contracts state the same FIFO behaviour
//! the lock-free queues implement, which is what makes the adapter usable
//! as a reference model.

use std::collections::VecDeque;
use vstd::prelude::*;

verus! {

/// Mutex-style baseline queue: append at the back, remove from the front,
/// everything under one serialization point.
pub struct BlockingQueue<T> {
    items: VecDeque<T>,
}

impl<T> BlockingQueue<T> {
    /// The queue's abstract contents, oldest first.
    pub closed spec fn elems(&self) -> Seq<T> {
        self.items@
    }

    /// An empty queue.
    pub fn new() -> (q: Self)
        ensures
            q.elems() == Seq::<T>::empty(),
    {
        BlockingQueue { items: VecDeque::new() }
    }

    /// Append at the back; never fails.
    pub fn push(&mut self, t: T)
        ensures
            final(self).elems() == old(self).elems().push(t),
    {
        self.items.push_back(t);
    }

    /// Remove and return the front element, or `None` exactly when the
    /// queue is empty.
    pub fn pop(&mut self) -> (r: Option<T>)
        ensures
            old(self).elems().len() == 0 ==> r is None && final(self).elems() == old(self).elems(),
            old(self).elems().len() > 0 ==> r == Some(old(self).elems()[0]) && final(self).elems()
                == old(self).elems().skip(1),
    {
        let ghost pre = *self;
        let r = self.items.pop_front();
        proof {
            if pre.elems().len() > 0 {
                assert(self.elems() =~= pre.elems().skip(1));
            }
        }
        r
    }
}

/// The uniform capability: the baseline needs no invariant beyond the
/// sequence itself.
impl<T> crate::iface::Queue<T> for BlockingQueue<T> {
    open spec fn contents(&self) -> Seq<T> {
        self.elems()
    }

    open spec fn inv(&self) -> bool {
        true
    }

    fn push(&mut self, t: T) {
        BlockingQueue::push(self, t)
    }

    fn pop(&mut self) -> (r: Option<T>) {
        BlockingQueue::pop(self)
    }
}

} // verus!
