//! The result queue: spectrogram columns waiting for a reader, oldest first.
use crate::fifo_queue::{keep_last, FifoQueue};
use std::collections::VecDeque;
use vstd::prelude::*;

verus! {

/// A queue of at most `size` columns; pushing onto a full queue evicts the
/// oldest column.
pub struct SpectrumQueue<T> {
    data: VecDeque<T>,
    size: usize,
}

impl<T> SpectrumQueue<T> {
    /// The most columns the queue keeps.
    pub fn size(&self) -> (r: usize)
        ensures
            r == self.bound(),
    {
        self.size
    }

    /// Removes every column and returns them, oldest first.
    pub fn drain(&mut self) -> (r: Vec<T>)
        requires
            old(self).wf(),
        ensures
            final(self).wf(),
            final(self).bound() == old(self).bound(),
            r@ == old(self).items(),
            final(self).items().len() == 0,
    {
        let mut r: Vec<T> = Vec::new();
        while !self.is_empty()
            invariant
                self.wf(),
                self.bound() == old(self).bound(),
                r@ + self.items() == old(self).items(),
            decreases self.items().len(),
        {
            match self.pop() {
                Some(c) => {
                    r.push(c);
                    assert(r@ + self.items() =~= old(self).items());
                },
                None => {},
            }
        }
        assert(r@ =~= old(self).items());
        r
    }
}

impl<T> FifoQueue<T> for SpectrumQueue<T> {
    closed spec fn items(&self) -> Seq<T> {
        self.data@
    }

    closed spec fn bound(&self) -> nat {
        self.size as nat
    }

    closed spec fn wf(&self) -> bool {
        self.data@.len() <= self.size
    }

    fn new(size: usize) -> (q: Self) {
        SpectrumQueue { data: VecDeque::new(), size }
    }

    fn push(&mut self, new_data: T) {
        let ghost pushed = self.data@.push(new_data);
        self.data.push_back(new_data);
        if self.data.len() > self.size {
            // the queue held at most `size` columns, so one eviction is enough
            self.data.pop_front();
        }
        assert(self.data@ =~= keep_last(pushed, self.size as nat));
    }

    fn pop(&mut self) -> (r: Option<T>) {
        self.data.pop_front()
    }

    fn len(&self) -> (n: usize) {
        self.data.len()
    }

    fn is_empty(&self) -> (b: bool) {
        self.data.len() == 0
    }
}

} // verus!
