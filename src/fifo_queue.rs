//! A bounded first-in first-out queue that evicts its oldest entries instead
//! of refusing new ones.
use vstd::prelude::*;

verus! {

/// The last `bound` items of `s`, or `s` itself when it is no longer.
pub open spec fn keep_last<T>(s: Seq<T>, bound: nat) -> Seq<T> {
    if s.len() > bound {
        s.skip(s.len() - bound)
    } else {
        s
    }
}

/// The contents after each item of `xs` was pushed, in order, onto a queue
/// that held `start` and keeps at most `bound` items.
pub open spec fn after_pushes<T>(start: Seq<T>, xs: Seq<T>, bound: nat) -> Seq<T>
    decreases xs.len(),
{
    if xs.len() == 0 {
        start
    } else {
        keep_last(after_pushes(start, xs.drop_last(), bound).push(xs.last()), bound)
    }
}

/// The contents after `k` pops from a queue that held `items`; a pop from an
/// empty queue leaves it empty.
pub open spec fn after_pops<T>(items: Seq<T>, k: nat) -> Seq<T>
    decreases k,
{
    if k == 0 || items.len() == 0 {
        items
    } else {
        after_pops(items.drop_first(), (k - 1) as nat)
    }
}

/// Popping `k` times removes the `k` oldest items.
pub proof fn lemma_after_pops_skips<T>(items: Seq<T>, k: nat)
    requires
        k <= items.len(),
    ensures
        after_pops(items, k) == items.skip(k as int),
    decreases k,
{
    if k == 0 {
        assert(items.skip(0) =~= items);
    } else {
        lemma_after_pops_skips(items.drop_first(), (k - 1) as nat);
        assert(items.drop_first().skip(k - 1) =~= items.skip(k as int));
    }
}

/// After the items of `xs` were pushed onto an empty queue that keeps at
/// most `bound`, the pops return the last `bound` of them (all of them when
/// there are no more), one by one in the order they were pushed, and then
/// the queue is empty.
pub proof fn lemma_pops_return_pushes_in_order<T>(xs: Seq<T>, bound: nat, i: nat)
    ensures
        after_pushes(Seq::<T>::empty(), xs, bound).len() == if xs.len() <= bound {
            xs.len()
        } else {
            bound
        },
        i < after_pushes(Seq::<T>::empty(), xs, bound).len() ==> after_pops(
            after_pushes(Seq::<T>::empty(), xs, bound),
            i,
        )[0] == xs[xs.len() - after_pushes(Seq::<T>::empty(), xs, bound).len() + i],
        after_pops(
            after_pushes(Seq::<T>::empty(), xs, bound),
            after_pushes(Seq::<T>::empty(), xs, bound).len(),
        ).len() == 0,
{
    lemma_pushes_keep_last(xs, bound);
    let q = after_pushes(Seq::<T>::empty(), xs, bound);
    lemma_after_pops_skips(q, q.len());
    if i < q.len() {
        lemma_after_pops_skips(q, i);
    }
}

/// A first-in first-out queue that keeps at most `bound()` items.
pub trait FifoQueue<T>: Sized {
    /// The items held, oldest first.
    spec fn items(&self) -> Seq<T>;

    /// The most items the queue keeps.
    spec fn bound(&self) -> nat;

    /// The queue's internal invariant.
    spec fn wf(&self) -> bool;

    /// An empty queue that keeps at most `size` items.
    fn new(size: usize) -> (q: Self)
        ensures
            q.wf(),
            q.items() == Seq::<T>::empty(),
            q.bound() == size,
    ;

    /// Appends `new_data`, then evicts the oldest items until at most
    /// `bound()` remain.
    fn push(&mut self, new_data: T)
        requires
            old(self).wf(),
        ensures
            final(self).wf(),
            final(self).bound() == old(self).bound(),
            final(self).items() == keep_last(old(self).items().push(new_data), old(self).bound()),
    ;

    /// Removes and returns the oldest item, or `None` when the queue is
    /// empty.
    fn pop(&mut self) -> (r: Option<T>)
        requires
            old(self).wf(),
        ensures
            final(self).wf(),
            final(self).bound() == old(self).bound(),
            old(self).items().len() == 0 ==> r == None::<T> && final(self).items() == old(
                self,
            ).items(),
            old(self).items().len() > 0 ==> r == Some(old(self).items()[0]) && final(self).items()
                == old(self).items().drop_first(),
    ;

    fn len(&self) -> (n: usize)
        requires
            self.wf(),
        ensures
            n == self.items().len(),
    ;

    fn is_empty(&self) -> (b: bool)
        requires
            self.wf(),
        ensures
            b == (self.items().len() == 0),
    ;
}

/// Pushing the items of `xs` one by one onto an empty queue leaves exactly
/// the last `bound` of them, in the order they were pushed: all of them when
/// there are no more than `bound`, and otherwise the oldest ones are the ones
/// evicted.
pub proof fn lemma_pushes_keep_last<T>(xs: Seq<T>, bound: nat)
    ensures
        after_pushes(Seq::<T>::empty(), xs, bound) == keep_last(xs, bound),
        xs.len() <= bound ==> after_pushes(Seq::<T>::empty(), xs, bound) == xs,
        xs.len() > bound ==> after_pushes(Seq::<T>::empty(), xs, bound) == xs.skip(
            xs.len() - bound,
        ),
    decreases xs.len(),
{
    if xs.len() > 0 {
        let prev = xs.drop_last();
        lemma_pushes_keep_last(prev, bound);
        let kept = keep_last(prev, bound);
        assert(kept.push(xs.last()) == keep_last(prev, bound).push(xs.last()));
        if prev.len() > bound {
            assert(keep_last(kept.push(xs.last()), bound) =~= keep_last(xs, bound));
        } else {
            assert(kept.push(xs.last()) =~= xs);
        }
    }
}

} // verus!
