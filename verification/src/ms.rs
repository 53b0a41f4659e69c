//! Michael-Scott style multi-producer, multi-consumer FIFO.
//!
//! The queue is a singly linked chain of pool slots beginning at a sentinel
//! node.  A push links the new node after the last chain node and then
//! swings the tail pointer forward; between the two the tail lags one node
//! behind the end of the chain, and any operation that finds it lagging
//! helps advance it before doing its own work.  A pop detaches the node
//! after the sentinel, which then becomes the new sentinel, and reclaims the
//! old one.
//!
//! `push_link` and `swing_tail` expose the two halves of the protocol so the
//! lagging state is part of the verified model; `push` and `pop` run the
//! complete operations, helping first where the algorithm does.  A push
//! takes effect — appears in the contents — at the moment its node is
//! linked, not when the tail catches up.

use crate::pool::NodePool;
use vstd::prelude::*;

verus! {

/// Multi-producer, multi-consumer FIFO.  Under concurrency every operation
/// is a retry loop around an atomic commit point; this model serializes the
/// committed steps, so a concurrent history corresponds to some sequence of
/// calls here, and the contracts pin down the state each step leaves.
pub struct MsQueue<T> {
    pool: NodePool<T>,
    head: usize,
    tail: usize,
    chain: Ghost<Seq<usize>>,
}

impl<T> MsQueue<T> {
    /// True while the tail pointer has not yet caught up with the last
    /// linked node.
    pub closed spec fn tail_lagging(&self) -> bool {
        self.tail != self.chain@[self.chain@.len() - 1]
    }

    /// The queue's abstract contents: the values linked after the sentinel,
    /// oldest first.
    pub closed spec fn elems(&self) -> Seq<T> {
        Seq::new(
            (self.chain@.len() - 1) as nat,
            |k: int| self.pool.value(self.chain@[k + 1]).unwrap(),
        )
    }

    /// Structural invariant: `chain` lists the linked nodes from the
    /// sentinel at `head` to the last linked node; links agree with it;
    /// every linked node but the sentinel carries a value; no linked node is
    /// on the free list; and the tail points at the last chain node or —
    /// lagging — at the one before it.
    pub closed spec fn wf(&self) -> bool {
        let c = self.chain@;
        &&& self.pool.wf()
        &&& c.len() >= 1
        &&& c[0] == self.head
        &&& forall|k: int| 0 <= k < c.len() ==> (#[trigger] c[k]) < self.pool.len()
        &&& forall|k: int, l: int| 0 <= k < l < c.len() ==> c[k] != c[l]
        &&& forall|k: int| 0 <= k < c.len() ==> !self.pool.is_free(#[trigger] c[k])
        &&& forall|k: int|
            0 <= k < c.len() - 1 ==> self.pool.link(#[trigger] c[k]) == Some(c[k + 1])
        &&& self.pool.link(c[c.len() - 1]) is None
        &&& self.pool.value(c[0]) is None
        &&& forall|k: int| 1 <= k < c.len() ==> (#[trigger] self.pool.value(c[k])) is Some
        &&& (self.tail == c[c.len() - 1] || (c.len() >= 2 && self.tail == c[c.len() - 2]))
    }

    /// An empty queue: the chain is just the sentinel.
    pub fn new() -> (q: Self)
        ensures
            q.wf(),
            !q.tail_lagging(),
            q.elems() == Seq::<T>::empty(),
    {
        let mut pool = NodePool::new();
        let sentinel = pool.acquire(None);
        let ghost c = Seq::<usize>::empty().push(sentinel);
        let q = MsQueue { pool, head: sentinel, tail: sentinel, chain: Ghost(c) };
        proof {
            assert(q.elems() =~= Seq::<T>::empty());
        }
        q
    }

    /// First half of a push: link a new node carrying `t` after the last
    /// chain node (the successful compare-and-swap of that node's null
    /// link).  The value is in the contents from this moment; the tail is
    /// left lagging one node behind.
    pub fn push_link(&mut self, t: T)
        requires
            old(self).wf(),
            !old(self).tail_lagging(),
        ensures
            final(self).wf(),
            final(self).tail_lagging(),
            final(self).elems() == old(self).elems().push(t),
    {
        let ghost pre = *self;
        let n = self.pool.acquire(Some(t));
        proof {
            let c = self.chain@;
            assert forall|k: int| 0 <= k < c.len() implies c[k] != n by {
                assert(!pre.pool.is_free(c[k]));
                assert(c[k] < pre.pool.len());
            }
            assert(self.tail < self.pool.len());
        }
        self.pool.set_link(self.tail, Some(n));
        self.chain = Ghost(self.chain@.push(n));
        proof {
            let c = pre.chain@;
            let c2 = self.chain@;
            assert forall|k: int| 0 <= k < c.len() implies
                self.pool.value(c[k]) == pre.pool.value(c[k]) && !self.pool.is_free(c[k]) by {}
            assert forall|k: int, l: int| 0 <= k < l < c2.len() implies c2[k] != c2[l] by {
                if l == c2.len() - 1 {
                    assert(c[k] != n);
                }
            }
            assert forall|k: int| 0 <= k < c2.len() - 1 implies
                self.pool.link(c2[k]) == Some(c2[k + 1]) by {
                if k < c.len() - 1 {
                    assert(c[k] != c[c.len() - 1]);
                    assert(self.pool.link(c[k]) == pre.pool.link(c[k]));
                }
            }
            assert(n != pre.tail);
            assert(self.pool.link(c2[c2.len() - 1]) is None);
            assert(self.elems() =~= pre.elems().push(t));
        }
    }

    /// Second half of a push, and the helping step: swing the lagging tail
    /// forward to the last linked node.  The contents are unchanged.
    pub fn swing_tail(&mut self)
        requires
            old(self).wf(),
            old(self).tail_lagging(),
        ensures
            final(self).wf(),
            !final(self).tail_lagging(),
            final(self).elems() == old(self).elems(),
    {
        let ghost pre = *self;
        proof {
            let c = pre.chain@;
            assert(pre.tail == c[c.len() - 2]);
            assert(pre.pool.link(c[c.len() - 2]) == Some(c[c.len() - 1]));
            assert(pre.tail < pre.pool.len());
        }
        let n = self.pool.get_link(self.tail);
        self.tail = n.unwrap();
        proof {
            assert(self.elems() =~= pre.elems());
        }
    }

    /// Push: help a lagging tail forward if a concurrent push left it
    /// behind, link the new node, then swing the tail over it.
    pub fn push(&mut self, t: T)
        requires
            old(self).wf(),
        ensures
            final(self).wf(),
            !final(self).tail_lagging(),
            final(self).elems() == old(self).elems().push(t),
    {
        proof {
            let c = self.chain@;
            if self.tail_lagging() {
                assert(self.pool.link(self.tail) == Some(c[c.len() - 1]));
            }
            assert(self.tail < self.pool.len());
        }
        let lag = self.pool.get_link(self.tail);
        if lag.is_some() {
            proof {
                let c = self.chain@;
                if !self.tail_lagging() {
                    assert(self.pool.link(c[c.len() - 1]) is None);
                }
            }
            self.swing_tail();
        }
        self.push_link(t);
        self.swing_tail();
    }

    /// Pop: detach and return the oldest value, or `None` on an empty
    /// queue.  A consumer that finds the tail lagging at the sentinel helps
    /// advance it before detaching; the detached sentinel is reclaimed and
    /// the popped node becomes the new sentinel.
    pub fn pop(&mut self) -> (r: Option<T>)
        requires
            old(self).wf(),
        ensures
            final(self).wf(),
            old(self).elems().len() == 0 ==> r is None && *final(self) == *old(self),
            old(self).elems().len() > 0 ==> r == Some(old(self).elems()[0])
                && final(self).elems() == old(self).elems().skip(1),
    {
        let ghost pre = *self;
        let next = self.pool.get_link(self.head);
        match next {
            None => {
                proof {
                    let c = pre.chain@;
                    if c.len() >= 2 {
                        assert(pre.pool.link(c[0]) == Some(c[1]));
                    }
                    assert(c.len() == 1);
                    assert(pre.elems() =~= Seq::<T>::empty());
                }
                None
            },
            Some(n) => {
                proof {
                    let c = pre.chain@;
                    assert(pre.pool.link(c[c.len() - 1]) is None);
                    assert(c.len() >= 2);
                    assert(pre.pool.link(c[0]) == Some(c[1]));
                    assert(n == c[1]);
                    assert(pre.pool.value(c[1]) is Some);
                    assert(pre.elems()[0] == pre.pool.value(c[1]).unwrap());
                }
                if self.head == self.tail {
                    // The tail lags at the sentinel while its successor is
                    // already linked: help it forward before detaching.
                    proof {
                        let c = pre.chain@;
                        assert(pre.tail == c[0]);
                        assert(c.len() == 2);
                    }
                    self.tail = n;
                }
                proof {
                    let c = pre.chain@;
                    assert(self.tail == c[c.len() - 1] || (c.len() >= 3 && self.tail == c[c.len()
                        - 2]));
                }
                let v = self.pool.take(n);
                let prev_head = self.head;
                self.head = n;
                self.chain = Ghost(self.chain@.skip(1));
                proof {
                    let c = pre.chain@;
                    assert(c[0] != c[1]);
                    assert(!self.pool.is_free(prev_head));
                }
                self.pool.release(prev_head);
                proof {
                    let c = pre.chain@;
                    let c2 = self.chain@;
                    assert(c2.len() == c.len() - 1);
                    assert forall|k: int| 0 <= k < c2.len() implies c2[k] == c[k + 1] by {}
                    assert forall|k: int| 0 <= k < c2.len() implies c2[k] != c[0] by {}
                    assert forall|k: int| 0 <= k < c2.len() implies
                        self.pool.value(c2[k]) == if c2[k] == n {
                            None::<T>
                        } else {
                            pre.pool.value(c2[k])
                        } && self.pool.link(c2[k]) == pre.pool.link(c2[k]) && !self.pool.is_free(
                            c2[k],
                        ) by {}
                    assert forall|k: int| 0 <= k < c2.len() - 1 implies
                        self.pool.link(c2[k]) == Some(c2[k + 1]) by {
                        assert(pre.pool.link(c[k + 1]) == Some(c[k + 2]));
                    }
                    assert forall|k: int| 1 <= k < c2.len() implies c2[k] != n by {
                        assert(c[k + 1] != c[1]);
                    }
                    assert(self.tail == c2[c2.len() - 1] || (c2.len() >= 2 && self.tail
                        == c2[c2.len() - 2]));
                    assert(self.elems() =~= pre.elems().skip(1));
                }
                Some(v.unwrap())
            },
        }
    }
}

/// The uniform capability: any number of producers and consumers, so the
/// invariant is just the structure's own well-formedness.
impl<T> crate::iface::Queue<T> for MsQueue<T> {
    open spec fn contents(&self) -> Seq<T> {
        self.elems()
    }

    open spec fn inv(&self) -> bool {
        self.wf()
    }

    fn push(&mut self, t: T) {
        MsQueue::push(self, t)
    }

    fn pop(&mut self) -> (r: Option<T>) {
        MsQueue::pop(self)
    }
}

} // verus!
