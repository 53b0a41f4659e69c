//! The crossbeam-backed lock-free queue behind the uniform contract.
//!
//! crossbeam's `SegQueue` is an unbounded lock-free multi-producer,
//! multi-consumer FIFO; the harness benchmarks it alongside the backends
//! modelled here.  The queue itself is outside code, so its operations are
//! taken on trust: `seg_elems` names what it holds, and each wrapper below
//! states, over that name, what the operation does under the exclusive
//! access that `&mut` grants.  Everything layered on top — the capability
//! impl and whatever a harness builds from it — is verified against those
//! contracts.

use crossbeam::queue::SegQueue;
use vstd::prelude::*;

verus! {

#[verifier::external_type_specification]
#[verifier::external_body]
#[verifier::reject_recursive_types(T)]
pub struct ExSegQueue<T>(SegQueue<T>);

/// The values a `SegQueue<u64>` holds, oldest first.
pub uninterp spec fn seg_elems(q: SegQueue<u64>) -> Seq<u64>;

/// Relies on crossbeam's `SegQueue::new`: creates a new empty unbounded
/// queue.
#[verifier::external_body]
fn seg_new() -> (q: SegQueue<u64>)
    ensures
        seg_elems(q) == Seq::<u64>::empty(),
{
    SegQueue::new()
}

/// Relies on crossbeam's `SegQueue::push`: pushes the element back to the
/// tail of the queue.
#[verifier::external_body]
fn seg_push(q: &mut SegQueue<u64>, v: u64)
    ensures
        seg_elems(*final(q)) == seg_elems(*old(q)).push(v),
{
    q.push(v)
}

/// Relies on crossbeam's `SegQueue::pop`: pops the head element, returning
/// `None` if the queue is empty.
#[verifier::external_body]
fn seg_pop(q: &mut SegQueue<u64>) -> (r: Option<u64>)
    ensures
        seg_elems(*old(q)).len() == 0 ==> r is None && seg_elems(*final(q)) == seg_elems(*old(q)),
        seg_elems(*old(q)).len() > 0 ==> r == Some(seg_elems(*old(q))[0]) && seg_elems(*final(q))
            == seg_elems(*old(q)).skip(1),
{
    q.pop()
}

/// The crossbeam queue as a backend: the same push/pop contract as the
/// modelled queues, so the harness can drive it interchangeably and the
/// backend-agreement laws apply to it.
pub struct CrossbeamQueue {
    inner: SegQueue<u64>,
}

impl CrossbeamQueue {
    /// The queue's abstract contents, oldest first.
    pub closed spec fn elems(&self) -> Seq<u64> {
        seg_elems(self.inner)
    }

    /// An empty queue.
    pub fn new() -> (q: Self)
        ensures
            q.elems() == Seq::<u64>::empty(),
    {
        CrossbeamQueue { inner: seg_new() }
    }

    /// Append at the back; never fails.
    pub fn push(&mut self, t: u64)
        ensures
            final(self).elems() == old(self).elems().push(t),
    {
        seg_push(&mut self.inner, t)
    }

    /// Remove and return the front element, or `None` exactly when the
    /// queue is empty.
    pub fn pop(&mut self) -> (r: Option<u64>)
        ensures
            old(self).elems().len() == 0 ==> r is None && final(self).elems() == old(self).elems(),
            old(self).elems().len() > 0 ==> r == Some(old(self).elems()[0]) && final(self).elems()
                == old(self).elems().skip(1),
    {
        seg_pop(&mut self.inner)
    }
}

/// The uniform capability for the crossbeam backend.
impl crate::iface::Queue<u64> for CrossbeamQueue {
    open spec fn contents(&self) -> Seq<u64> {
        self.elems()
    }

    open spec fn inv(&self) -> bool {
        true
    }

    fn push(&mut self, t: u64) {
        CrossbeamQueue::push(self, t)
    }

    fn pop(&mut self) -> (r: Option<u64>) {
        CrossbeamQueue::pop(self)
    }
}

} // verus!
