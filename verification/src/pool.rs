//! Arena allocation and reclamation for linked queue nodes.

use vstd::prelude::*;

verus! {

/// An arena of queue nodes addressed by index.  Each slot holds an optional
/// element value and a link to the next node (`None` standing for the null
/// link).  Released slots go onto a free list and are handed out again by
/// `acquire`, so a queue built on the pool reuses storage instead of growing
/// without bound.
///
/// The pool does not know which slots a client still reaches through links;
/// the client keeps that as its own invariant.  What the pool guarantees is
/// that `acquire` returns a slot that was on the free list or is brand new, so
/// a client whose live slots are disjoint from the free list never has a
/// live slot handed out twice — the reclamation-safety obligation of the
/// queues built on top.
pub struct NodePool<T> {
    values: Vec<Option<T>>,
    links: Vec<Option<usize>>,
    free: Vec<usize>,
}

impl<T> NodePool<T> {
    /// Number of slots the arena holds (live and free together).
    pub closed spec fn len(&self) -> nat {
        self.values@.len()
    }

    /// The element stored in slot `i`.
    pub closed spec fn value(&self, i: usize) -> Option<T> {
        self.values@[i as int]
    }

    /// The link stored in slot `i` (`None` is the null link).
    pub closed spec fn link(&self, i: usize) -> Option<usize> {
        self.links@[i as int]
    }

    /// Whether slot `i` is on the free list.
    pub closed spec fn is_free(&self, i: usize) -> bool {
        self.free@.contains(i)
    }

    /// Well-formedness: links parallel values, and the free list holds
    /// distinct, in-range slot indices.
    pub closed spec fn wf(&self) -> bool {
        &&& self.links@.len() == self.values@.len()
        &&& forall|k: int| 0 <= k < self.free@.len() ==> (#[trigger] self.free@[k]) < self.values@.len()
        &&& forall|k: int, l: int|
            0 <= k < l < self.free@.len() ==> self.free@[k] != self.free@[l]
    }

    /// An empty arena: no slots at all.
    pub fn new() -> (p: Self)
        ensures
            p.wf(),
            p.len() == 0,
    {
        NodePool { values: Vec::new(), links: Vec::new(), free: Vec::new() }
    }

    /// Hand out a slot holding `v` with a null link: a reclaimed slot when
    /// one is free, a fresh one otherwise.
    pub fn acquire(&mut self, v: Option<T>) -> (i: usize)
        requires
            old(self).wf(),
        ensures
            final(self).wf(),
            i < final(self).len(),
            !final(self).is_free(i),
            final(self).value(i) == v,
            final(self).link(i) is None,
            old(self).is_free(i) || i == old(self).len(),
            final(self).len() == if old(self).is_free(i) {
                old(self).len()
            } else {
                old(self).len() + 1
            },
            forall|j: usize|
                j < old(self).len() && j != i ==> (#[trigger] final(self).value(j)) == old(self).value(j),
            forall|j: usize|
                j < old(self).len() && j != i ==> (#[trigger] final(self).link(j)) == old(self).link(j),
            forall|j: usize| j != i ==> ((#[trigger] final(self).is_free(j)) <==> old(self).is_free(j)),
    {
        let popped = self.free.pop();
        match popped {
            Some(i) => {
                proof {
                    let of = old(self).free@;
                    assert(of[of.len() - 1] == i);
                    assert(of.contains(i));
                    assert forall|j: usize| self.free@.contains(j) implies of.contains(j) by {
                        let k = choose|k: int| 0 <= k < self.free@.len() && self.free@[k] == j;
                        assert(of[k] == j);
                    }
                    assert forall|j: usize| j != i && of.contains(j) implies
                        self.free@.contains(j) by {
                        let k = choose|k: int| 0 <= k < of.len() && of[k] == j;
                        assert(k < of.len() - 1);
                        assert(self.free@[k] == j);
                    }
                    assert(!self.free@.contains(i)) by {
                        if self.free@.contains(i) {
                            let k = choose|k: int| 0 <= k < self.free@.len() && self.free@[k] == i;
                            assert(of[k] == of[of.len() - 1]);
                        }
                    }
                }
                self.values[i] = v;
                self.links[i] = None;
                i
            },
            None => {
                let i = self.values.len();
                self.values.push(v);
                self.links.push(None);
                proof {
                    assert(!old(self).is_free(i)) by {
                        if old(self).free@.contains(i) {
                            let k = choose|k: int|
                                0 <= k < old(self).free@.len() && old(self).free@[k] == i;
                        }
                    }
                }
                i
            },
        }
    }

    /// Read the link of slot `i`.
    pub fn get_link(&self, i: usize) -> (l: Option<usize>)
        requires
            self.wf(),
            i < self.len(),
        ensures
            l == self.link(i),
    {
        self.links[i]
    }

    /// Set the link of slot `i`.
    pub fn set_link(&mut self, i: usize, l: Option<usize>)
        requires
            old(self).wf(),
            i < old(self).len(),
        ensures
            final(self).wf(),
            final(self).len() == old(self).len(),
            final(self).link(i) == l,
            forall|j: usize|
                j < old(self).len() && j != i ==> (#[trigger] final(self).link(j)) == old(self).link(j),
            forall|j: usize| (#[trigger] final(self).value(j)) == old(self).value(j),
            forall|j: usize| (#[trigger] final(self).is_free(j)) <==> old(self).is_free(j),
    {
        self.links[i] = l;
    }

    /// Move the element out of slot `i`, leaving the slot's value empty.
    pub fn take(&mut self, i: usize) -> (v: Option<T>)
        requires
            old(self).wf(),
            i < old(self).len(),
        ensures
            final(self).wf(),
            final(self).len() == old(self).len(),
            v == old(self).value(i),
            final(self).value(i) is None,
            forall|j: usize|
                j < old(self).len() && j != i ==> (#[trigger] final(self).value(j)) == old(self).value(j),
            forall|j: usize| (#[trigger] final(self).link(j)) == old(self).link(j),
            forall|j: usize| (#[trigger] final(self).is_free(j)) <==> old(self).is_free(j),
    {
        let mut v: Option<T> = None;
        core::mem::swap(&mut v, &mut self.values[i]);
        v
    }

    /// Return slot `i` to the free list, dropping its value and link.
    pub fn release(&mut self, i: usize)
        requires
            old(self).wf(),
            i < old(self).len(),
            !old(self).is_free(i),
        ensures
            final(self).wf(),
            final(self).len() == old(self).len(),
            final(self).is_free(i),
            final(self).value(i) is None,
            final(self).link(i) is None,
            forall|j: usize| j != i ==> ((#[trigger] final(self).is_free(j)) <==> old(self).is_free(j)),
            forall|j: usize|
                j < old(self).len() && j != i ==> (#[trigger] final(self).value(j)) == old(self).value(j),
            forall|j: usize|
                j < old(self).len() && j != i ==> (#[trigger] final(self).link(j)) == old(self).link(j),
    {
        self.values[i] = None;
        self.links[i] = None;
        self.free.push(i);
        proof {
            let of = old(self).free@;
            let nf = self.free@;
            assert(nf[nf.len() - 1] == i);
            assert(nf.contains(i));
            assert forall|k: int, l: int| 0 <= k < l < nf.len() implies nf[k] != nf[l] by {
                if l == nf.len() - 1 {
                    assert(nf[k] == of[k]);
                    if nf[k] == i {
                        assert(of.contains(i));
                    }
                }
            }
            assert forall|j: usize| j != i && nf.contains(j) implies of.contains(j) by {
                let k = choose|k: int| 0 <= k < nf.len() && nf[k] == j;
                assert(k < nf.len() - 1);
                assert(of[k] == j);
            }
            assert forall|j: usize| j != i && of.contains(j) implies nf.contains(j) by {
                let k = choose|k: int| 0 <= k < of.len() && of[k] == j;
                assert(nf[k] == j);
            }
        }
    }
}

} // verus!
