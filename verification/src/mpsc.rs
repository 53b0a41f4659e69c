//! Intrusive multi-producer, single-consumer FIFO with a stub node and a
//! tri-state pop.
//!
//! The queue is a singly linked chain of pool slots whose first node is a
//! permanently allocated stub: the consumer's `head` points at the stub (or
//! at the last consumed node, which takes over the stub's role), and the
//! producers' `tail` points at the most recently swapped-in node.  A push is
//! a two-step protocol: swap the new node in as the tail, then link the
//! previous tail to it.  Between the two steps the chain is transiently
//! inconsistent — the tail has advanced but the link is not yet set — and a
//! pop in that window reports `Inconsistent` rather than `Empty`, so the
//! caller can retry instead of concluding no data exists.
//!
//! The model keeps the whole protocol state explicit: `push_swap` and
//! `push_link` are the two steps, `push` performs both, and the contracts
//! pin down exactly which of the three pop outcomes each state produces.

use crate::pool::NodePool;
use vstd::prelude::*;

verus! {

/// Outcome of a pop on the single-consumer queue.
///
/// `Inconsistent` is not emptiness: it means a push has swapped the tail but
/// not yet linked the new node, so data may be moments away and the caller
/// should retry.
pub enum PopResult<T> {
    /// The oldest linked element.
    Data(T),
    /// No element is linked and no push is mid-flight.
    Empty,
    /// A push is mid-flight; retry.
    Inconsistent,
}

/// Multi-producer, single-consumer FIFO.  Concurrent use hands each producer
/// the swap/link pair and the sole consumer pop; this model serializes those
/// steps, so every interleaving of completed steps is a sequence of calls
/// here, and the contracts say what each step does to the abstract queue.
pub struct MpscQueue<T> {
    pool: NodePool<T>,
    head: usize,
    tail: usize,
    chain: Ghost<Seq<usize>>,
}

impl<T> MpscQueue<T> {
    /// True while a push has swapped the tail but not yet linked it.
    pub closed spec fn pending(&self) -> bool {
        self.tail != self.chain@[self.chain@.len() - 1]
    }

    /// The value carried by the swapped-but-unlinked node.
    pub closed spec fn pending_value(&self) -> T {
        self.pool.value(self.tail).unwrap()
    }

    /// The node at the linked end of the chain (the last node a pop can
    /// reach); a mid-flight push links its node to this one.
    pub closed spec fn last_linked(&self) -> usize {
        self.chain@[self.chain@.len() - 1]
    }

    /// The queue's abstract contents: the values of the linked chain, oldest
    /// first, not counting a swapped-but-unlinked node.
    pub closed spec fn elems(&self) -> Seq<T> {
        Seq::new(
            (self.chain@.len() - 1) as nat,
            |k: int| self.pool.value(self.chain@[k + 1]).unwrap(),
        )
    }

    /// Structural invariant: `chain` lists the linked nodes from `head` to
    /// the last linked node; links agree with it; every linked node but the
    /// stub carries a value; no linked node is on the free list; and a
    /// mid-flight node, when there is one, is a valued, unlinked node
    /// outside the chain.
    pub closed spec fn wf(&self) -> bool {
        let c = self.chain@;
        &&& self.pool.wf()
        &&& c.len() >= 1
        &&& c[0] == self.head
        &&& forall|k: int| 0 <= k < c.len() ==> (#[trigger] c[k]) < self.pool.len()
        &&& forall|k: int, l: int| 0 <= k < l < c.len() ==> c[k] != c[l]
        &&& forall|k: int| 0 <= k < c.len() ==> !self.pool.is_free(#[trigger] c[k])
        &&& forall|k: int|
            0 <= k < c.len() - 1 ==> self.pool.link(#[trigger] c[k]) == Some(c[k + 1])
        &&& self.pool.link(c[c.len() - 1]) is None
        &&& self.pool.value(c[0]) is None
        &&& forall|k: int| 1 <= k < c.len() ==> (#[trigger] self.pool.value(c[k])) is Some
        &&& (self.pending() ==> {
            &&& self.tail < self.pool.len()
            &&& !self.pool.is_free(self.tail)
            &&& forall|k: int| 0 <= k < c.len() ==> (#[trigger] c[k]) != self.tail
            &&& self.pool.link(self.tail) is None
            &&& self.pool.value(self.tail) is Some
        })
    }

    /// An empty queue: the chain is just the stub node.
    pub fn new() -> (q: Self)
        ensures
            q.wf(),
            !q.pending(),
            q.elems() == Seq::<T>::empty(),
    {
        let mut pool = NodePool::new();
        let stub = pool.acquire(None);
        let ghost c = Seq::<usize>::empty().push(stub);
        let q = MpscQueue { pool, head: stub, tail: stub, chain: Ghost(c) };
        proof {
            assert(q.elems() =~= Seq::<T>::empty());
        }
        q
    }

    /// First half of a push: allocate a node carrying `t` and swap it in as
    /// the new tail.  Returns the previous tail, which the second half must
    /// link.  After this step the queue is in its transient mid-flight
    /// state; the linked contents are unchanged.
    pub fn push_swap(&mut self, t: T) -> (prev: usize)
        requires
            old(self).wf(),
            !old(self).pending(),
        ensures
            final(self).wf(),
            final(self).pending(),
            final(self).elems() == old(self).elems(),
            final(self).pending_value() == t,
            prev == final(self).last_linked(),
    {
        let ghost pre = *self;
        let n = self.pool.acquire(Some(t));
        let prev = self.tail;
        self.tail = n;
        proof {
            let c = self.chain@;
            assert forall|k: int| 0 <= k < c.len() implies c[k] != n by {
                assert(!pre.pool.is_free(c[k]));
                assert(c[k] < pre.pool.len());
            }
            assert forall|k: int| 0 <= k < c.len() implies
                self.pool.value(c[k]) == pre.pool.value(c[k])
                    && self.pool.link(c[k]) == pre.pool.link(c[k])
                    && !self.pool.is_free(c[k]) by {}
            assert(self.elems() =~= pre.elems());
        }
        prev
    }

    /// Second half of a push: link the previous tail (returned by
    /// `push_swap`) to the swapped-in node, appending the mid-flight value
    /// to the linked contents and leaving the chain consistent again.
    pub fn push_link(&mut self, prev: usize)
        requires
            old(self).wf(),
            old(self).pending(),
            prev == old(self).last_linked(),
        ensures
            final(self).wf(),
            !final(self).pending(),
            final(self).elems() == old(self).elems().push(old(self).pending_value()),
    {
        let ghost pre = *self;
        proof {
            let c = pre.chain@;
            assert(c[c.len() - 1] < pre.pool.len());
        }
        let n = self.tail;
        self.pool.set_link(prev, Some(n));
        self.chain = Ghost(self.chain@.push(n));
        proof {
            let c = pre.chain@;
            let c2 = self.chain@;
            assert forall|k: int| 0 <= k < c.len() implies c2[k] == c[k] by {}
            assert forall|k: int, l: int| 0 <= k < l < c2.len() implies c2[k] != c2[l] by {
                if l == c2.len() - 1 {
                    assert(c[k] != pre.tail);
                }
            }
            assert forall|k: int| 0 <= k < c2.len() - 1 implies
                self.pool.link(c2[k]) == Some(c2[k + 1]) by {
                if k < c.len() - 1 {
                    assert(c[k] != c[c.len() - 1]);
                    assert(self.pool.link(c[k]) == pre.pool.link(c[k]));
                }
            }
            assert(n != prev);
            assert(self.pool.link(c2[c2.len() - 1]) is None);
            assert(self.elems() =~= pre.elems().push(pre.pending_value()));
        }
    }

    /// Push: swap the new node in as the tail, then link it — the two-step
    /// protocol run to completion.
    pub fn push(&mut self, t: T)
        requires
            old(self).wf(),
            !old(self).pending(),
        ensures
            final(self).wf(),
            !final(self).pending(),
            final(self).elems() == old(self).elems().push(t),
    {
        let prev = self.push_swap(t);
        self.push_link(prev);
    }

    /// Pop, for the single consumer.  Returns the oldest linked value and
    /// reclaims the node it detaches; on a queue with no linked value it
    /// tells emptiness apart from a mid-flight push: `Empty` only when no
    /// push is in progress, `Inconsistent` — never `Empty` — while one is.
    pub fn pop(&mut self) -> (r: PopResult<T>)
        requires
            old(self).wf(),
        ensures
            final(self).wf(),
            final(self).pending() == old(self).pending(),
            old(self).pending() ==> r != PopResult::<T>::Empty,
            old(self).pending() ==> final(self).pending_value() == old(self).pending_value()
                && final(self).last_linked() == old(self).last_linked(),
            old(self).elems().len() == 0 && !old(self).pending() ==> r == PopResult::<T>::Empty
                && *final(self) == *old(self),
            old(self).elems().len() == 0 && old(self).pending() ==> r
                == PopResult::<T>::Inconsistent && *final(self) == *old(self),
            old(self).elems().len() > 0 ==> r == PopResult::Data(old(self).elems()[0])
                && final(self).elems() == old(self).elems().skip(1),
    {
        let ghost pre = *self;
        let next = self.pool.get_link(self.head);
        match next {
            None => {
                proof {
                    let c = pre.chain@;
                    if c.len() >= 2 {
                        assert(pre.pool.link(c[0]) == Some(c[1]));
                    }
                    assert(c.len() == 1);
                    assert(pre.elems() =~= Seq::<T>::empty());
                }
                if self.head == self.tail {
                    PopResult::Empty
                } else {
                    PopResult::Inconsistent
                }
            },
            Some(n) => {
                proof {
                    let c = pre.chain@;
                    assert(pre.pool.link(c[c.len() - 1]) is None);
                    assert(c.len() >= 2);
                    assert(pre.pool.link(c[0]) == Some(c[1]));
                    assert(n == c[1]);
                    assert(pre.pool.value(c[1]) is Some);
                    assert(pre.elems()[0] == pre.pool.value(c[1]).unwrap());
                }
                let v = self.pool.take(n);
                let prev_head = self.head;
                self.head = n;
                self.chain = Ghost(self.chain@.skip(1));
                proof {
                    let c = pre.chain@;
                    assert(c[0] != c[1]);
                    assert(!self.pool.is_free(prev_head));
                }
                self.pool.release(prev_head);
                proof {
                    let c = pre.chain@;
                    let c2 = self.chain@;
                    assert(c2.len() == c.len() - 1);
                    assert forall|k: int| 0 <= k < c2.len() implies c2[k] == c[k + 1] by {}
                    assert forall|k: int| 0 <= k < c2.len() implies c2[k] != c[0] by {}
                    assert forall|k: int| 0 <= k < c2.len() implies
                        self.pool.value(c2[k]) == if c2[k] == n {
                            None::<T>
                        } else {
                            pre.pool.value(c2[k])
                        } && self.pool.link(c2[k]) == pre.pool.link(c2[k]) && !self.pool.is_free(
                            c2[k],
                        ) by {}
                    assert forall|k: int| 0 <= k < c2.len() - 1 implies
                        self.pool.link(c2[k]) == Some(c2[k + 1]) by {
                        assert(pre.pool.link(c[k + 1]) == Some(c[k + 2]));
                    }
                    assert forall|k: int| 1 <= k < c2.len() implies c2[k] != n by {
                        assert(c[k + 1] != c[1]);
                    }
                    if pre.pending() {
                        assert(pre.tail != c[0]);
                        assert(pre.tail != c[1]);
                        assert forall|k: int| 0 <= k < c2.len() implies c2[k] != self.tail by {}
                    }
                    assert(self.elems() =~= pre.elems().skip(1));
                }
                PopResult::Data(v.unwrap())
            },
        }
    }
}

/// The uniform capability, for the sole consumer with no push mid-flight:
/// with that multiplicity respected the tri-state pop collapses to the
/// plain optional result.
impl<T> crate::iface::Queue<T> for MpscQueue<T> {
    open spec fn contents(&self) -> Seq<T> {
        self.elems()
    }

    open spec fn inv(&self) -> bool {
        self.wf() && !self.pending()
    }

    fn push(&mut self, t: T) {
        MpscQueue::push(self, t)
    }

    fn pop(&mut self) -> (r: Option<T>) {
        let res = MpscQueue::pop(self);
        match res {
            PopResult::Data(t) => Some(t),
            PopResult::Empty => None,
            PopResult::Inconsistent => {
                // Unreachable: with no push mid-flight, pop never reports
                // the transient state.
                proof {
                    assert(false);
                }
                None
            },
        }
    }
}

} // verus!
