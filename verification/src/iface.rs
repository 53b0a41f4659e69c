//! The uniform queue capability interface: one push/pop contract that every
//! backend satisfies, the batch operations a harness drives it with, and
//! the laws that hold of any backend through the contract alone.

use vstd::prelude::*;

verus! {

/// The capability every queue backend offers: FIFO push and pop over
/// abstract contents.
///
/// `inv` is the backend's validity — established by its constructor,
/// preserved by every operation — and carries any consumer-multiplicity
/// precondition the backend documents (for the single-consumer queue: no
/// push mid-flight when the sole consumer runs).  `contents` is the
/// backend's abstract state, oldest element first.
pub trait Queue<T>: Sized {
    /// The queue's abstract contents, oldest first.
    spec fn contents(&self) -> Seq<T>;

    /// The backend's validity invariant.
    spec fn inv(&self) -> bool;

    /// Append `t` at the back; never fails, there is no capacity bound.
    fn push(&mut self, t: T)
        requires
            old(self).inv(),
        ensures
            final(self).inv(),
            final(self).contents() == old(self).contents().push(t),
    ;

    /// Remove and return the oldest element; `None` exactly when the queue
    /// is empty, in which case nothing changes.
    fn pop(&mut self) -> (r: Option<T>)
        requires
            old(self).inv(),
        ensures
            final(self).inv(),
            old(self).contents().len() == 0 ==> r is None
                && final(self).contents() == old(self).contents(),
            old(self).contents().len() > 0 ==> r == Some(old(self).contents()[0])
                && final(self).contents() == old(self).contents().skip(1),
    ;
}

/// Push every element of `vs` in order, as one producer's run of pushes.
pub fn push_all<T, Q: Queue<T>>(q: &mut Q, vs: Vec<T>)
    requires
        old(q).inv(),
    ensures
        final(q).inv(),
        final(q).contents() == old(q).contents() + vs@,
{
    let ghost all = vs@;
    let mut rest = vs;
    proof {
        assert(rest@ =~= all.skip(0));
        assert(q.contents() + all.take(0) =~= q.contents());
    }
    while rest.len() > 0
        invariant
            q.inv(),
            rest@.len() <= all.len(),
            q.contents() == old(q).contents() + all.take(all.len() - rest@.len()),
            rest@ == all.skip(all.len() - rest@.len()),
        decreases rest@.len(),
    {
        let ghost done = all.len() - rest@.len();
        let t = rest.remove(0);
        q.push(t);
        proof {
            assert(t == all[done]);
            assert(rest@ =~= all.skip(done + 1));
            assert(old(q).contents() + all.take(done) + seq![t] =~= old(q).contents() + all.take(
                done + 1,
            ));
        }
    }
    proof {
        assert(old(q).contents() + all.take(all.len() as int) =~= old(q).contents() + all);
    }
}

/// Pop until empty, collecting what comes out.
///
/// This is the FIFO law in executable form: whatever the backend, the
/// drained vector is exactly the queue's contents, oldest first — pops
/// return values in the order their pushes entered them.
pub fn drain<T, Q: Queue<T>>(q: &mut Q) -> (r: Vec<T>)
    requires
        old(q).inv(),
    ensures
        final(q).inv(),
        final(q).contents().len() == 0,
        r@ == old(q).contents(),
{
    let mut r: Vec<T> = Vec::new();
    proof {
        assert(old(q).contents() =~= r@ + q.contents());
    }
    loop
        invariant_except_break
            q.inv(),
            old(q).contents() == r@ + q.contents(),
        ensures
            q.inv(),
            q.contents().len() == 0,
            old(q).contents() == r@ + q.contents(),
        decreases q.contents().len(),
    {
        let popped = q.pop();
        match popped {
            Some(t) => {
                proof {
                    assert(old(q).contents() =~= (r@ + seq![t]) + q.contents());
                }
                r.push(t);
            },
            None => {
                break ;
            },
        }
    }
    proof {
        assert(r@ =~= old(q).contents());
    }
    r
}

/// Push a batch into an empty queue and drain it: the values come back
/// exactly in push order.  First in, first out, for every backend, for
/// every batch.
pub fn fifo_round_trip<T, Q: Queue<T>>(q: &mut Q, vs: Vec<T>) -> (r: Vec<T>)
    requires
        old(q).inv(),
        old(q).contents().len() == 0,
    ensures
        final(q).inv(),
        r@ == vs@,
{
    let ghost batch = vs@;
    push_all(q, vs);
    let r = drain(q);
    proof {
        assert(old(q).contents() + batch =~= batch);
    }
    r
}

/// Whether `s` is an interleaving of `a` and `b`: the elements of `a` and
/// of `b`, each subsequence kept in its own order, merged in any order.
pub open spec fn is_interleaving<T>(s: Seq<T>, a: Seq<T>, b: Seq<T>) -> bool
    decreases s.len(),
{
    if s.len() == 0 {
        a.len() == 0 && b.len() == 0
    } else {
        ||| (a.len() > 0 && a.last() == s.last() && is_interleaving(
            s.drop_last(),
            a.drop_last(),
            b,
        ))
        ||| (b.len() > 0 && b.last() == s.last() && is_interleaving(
            s.drop_last(),
            a,
            b.drop_last(),
        ))
    }
}

/// No loss and no duplication.  Two producers' push runs interleave into
/// the queue in some order; whatever that order, the contents hold exactly
/// as many values as were pushed, and as a multiset exactly the two batches
/// together — so a full drain pops every pushed value exactly as often as
/// it was pushed, none lost, none duplicated.
pub proof fn lemma_no_loss_no_duplication<T>(s: Seq<T>, a: Seq<T>, b: Seq<T>)
    requires
        is_interleaving(s, a, b),
    ensures
        s.len() == a.len() + b.len(),
        s.to_multiset() == a.to_multiset().add(b.to_multiset()),
    decreases s.len(),
{
    broadcast use vstd::seq_lib::group_to_multiset_ensures;

    if s.len() == 0 {
        assert(s.to_multiset() =~= a.to_multiset().add(b.to_multiset()));
    } else {
        let x = s.last();
        assert(s =~= s.drop_last().push(x));
        if a.len() > 0 && a.last() == x && is_interleaving(s.drop_last(), a.drop_last(), b) {
            lemma_no_loss_no_duplication(s.drop_last(), a.drop_last(), b);
            assert(a =~= a.drop_last().push(x));
            assert(s.to_multiset() =~= a.to_multiset().add(b.to_multiset()));
        } else {
            lemma_no_loss_no_duplication(s.drop_last(), a, b.drop_last());
            assert(b =~= b.drop_last().push(x));
            assert(s.to_multiset() =~= a.to_multiset().add(b.to_multiset()));
        }
    }
}

/// No loss and no duplication, end to end: push two producers' batches into
/// an empty queue in any interleaved order, drain, and exactly one pop
/// comes out per push — the drained vector has the batches' combined
/// length and, as a multiset, is exactly the two batches together.
pub fn interleaved_round_trip<T, Q: Queue<T>>(q: &mut Q, s: Vec<T>, a: &Vec<T>, b: &Vec<T>) -> (r:
    Vec<T>)
    requires
        old(q).inv(),
        old(q).contents().len() == 0,
        is_interleaving(s@, a@, b@),
    ensures
        final(q).inv(),
        r@.len() == a@.len() + b@.len(),
        r@.to_multiset() == a@.to_multiset().add(b@.to_multiset()),
{
    let ghost sg = s@;
    push_all(q, s);
    let r = drain(q);
    proof {
        assert(old(q).contents() + sg =~= sg);
        lemma_no_loss_no_duplication(sg, a@, b@);
    }
    r
}

/// Sequential observational equivalence of backends: two valid queues with
/// equal contents answer a pop identically and still hold equal contents.
/// Any backend therefore agrees, operation by operation, with the blocking
/// adapter used as the reference model — the sequential content of
/// linearizability checking.
pub fn pops_agree<T, P: Queue<T>, Q: Queue<T>>(p: &mut P, q: &mut Q) -> (r: (
    Option<T>,
    Option<T>,
))
    requires
        old(p).inv(),
        old(q).inv(),
        old(p).contents() == old(q).contents(),
    ensures
        final(p).inv(),
        final(q).inv(),
        r.0 == r.1,
        final(p).contents() == final(q).contents(),
{
    let a = p.pop();
    let b = q.pop();
    (a, b)
}

/// Replay a whole operation history — `Some(v)` a push of `v`, `None` a
/// pop — against two backends with equal starting contents: every pop
/// answers identically and the contents stay equal throughout.  Any backend
/// is thus indistinguishable, history by history, from the blocking adapter
/// used as the reference model.
pub fn replay_agrees<P: Queue<u64>, Q: Queue<u64>>(p: &mut P, q: &mut Q, ops: &Vec<Option<u64>>)
    -> (r: (Vec<Option<u64>>, Vec<Option<u64>>))
    requires
        old(p).inv(),
        old(q).inv(),
        old(p).contents() == old(q).contents(),
    ensures
        final(p).inv(),
        final(q).inv(),
        final(p).contents() == final(q).contents(),
        r.0@ == r.1@,
{
    let mut rp: Vec<Option<u64>> = Vec::new();
    let mut rq: Vec<Option<u64>> = Vec::new();
    let mut i: usize = 0;
    while i < ops.len()
        invariant
            p.inv(),
            q.inv(),
            p.contents() == q.contents(),
            rp@ == rq@,
            i <= ops@.len(),
        decreases ops@.len() - i,
    {
        match ops[i] {
            Some(v) => {
                p.push(v);
                q.push(v);
            },
            None => {
                rp.push(p.pop());
                rq.push(q.pop());
            },
        }
        i = i + 1;
    }
    (rp, rq)
}

} // verus!
