//! The frontier: the shared collection of directories awaiting a scan,
//! used as a stack so the traversal leans depth-first.

use vstd::prelude::*;

verus! {

/// An ordered collection of pending work items.  Workers push newly
/// discovered directories and pop bounded batches off the top.
pub struct Frontier<T> {
    items: Vec<T>,
}

impl<T> View for Frontier<T> {
    type V = Seq<T>;

    closed spec fn view(&self) -> Seq<T> {
        self.items@
    }
}

impl<T> Frontier<T> {
    /// An empty frontier.
    pub fn new() -> (r: Self)
        ensures
            r@ == Seq::<T>::empty(),
    {
        Frontier { items: Vec::new() }
    }

    /// A frontier holding a single seed item.
    pub fn with_seed(seed: T) -> (r: Self)
        ensures
            r@ == seq![seed],
    {
        let mut items: Vec<T> = Vec::new();
        items.push(seed);
        proof {
            assert(items@ =~= seq![seed]);
        }
        Frontier { items }
    }

    pub fn len(&self) -> (n: usize)
        ensures
            n == self@.len(),
    {
        self.items.len()
    }

    pub fn is_empty(&self) -> (r: bool)
        ensures
            r == (self@.len() == 0),
    {
        self.items.len() == 0
    }

    /// Appends newly discovered items in order; no deduplication.
    pub fn push_many(&mut self, items: Vec<T>)
        ensures
            final(self)@ == old(self)@ + items@,
    {
        let mut tail = items;
        self.items.append(&mut tail);
    }

    /// Removes and returns up to `max_count` items from the top of the
    /// frontier; fewer if the frontier holds fewer, none if it is empty.
    pub fn pop_batch(&mut self, max_count: usize) -> (batch: Vec<T>)
        ensures
            batch@.len() == (if max_count <= old(self)@.len() {
                max_count as int
            } else {
                old(self)@.len() as int
            }),
            final(self)@ == old(self)@.subrange(0, old(self)@.len() - batch@.len()),
            batch@ == old(self)@.subrange(
                old(self)@.len() - batch@.len(),
                old(self)@.len() as int,
            ),
    {
        let n = self.items.len();
        let at = if max_count <= n {
            n - max_count
        } else {
            0
        };
        self.items.split_off(at)
    }
}

} // verus!
