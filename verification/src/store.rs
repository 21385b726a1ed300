//! A store of values that hands out a handle for each. Clearing the store
//! makes all earlier handles stale: a stale handle finds nothing.

use std::marker::PhantomData;
use vstd::prelude::*;

verus! {

/// A handle on a value in a store of `T`s.
pub struct Index<T> {
    slot: usize,
    generation: u64,
    marker: PhantomData<T>,
}

impl<T> Index<T> {
    /// The place of the value in the store.
    pub closed spec fn slot(&self) -> nat {
        self.slot as nat
    }

    /// How often the store had been cleared when the handle was made.
    pub closed spec fn generation(&self) -> nat {
        self.generation as nat
    }
}

impl<T> Clone for Index<T> {
    fn clone(&self) -> (r: Self)
        ensures
            r.slot() == self.slot(),
            r.generation() == self.generation(),
    {
        Index { slot: self.slot, generation: self.generation, marker: PhantomData }
    }
}

impl<T> Copy for Index<T> {

}

/// A store of values, each found again by its handle.
pub struct Store<T> {
    items: Vec<T>,
    generation: u64,
}

impl<T> View for Store<T> {
    type V = Seq<T>;

    closed spec fn view(&self) -> Seq<T> {
        self.items@
    }
}

impl<T> Store<T> {
    /// How often the store has been cleared.
    pub closed spec fn spec_generation(&self) -> nat {
        self.generation as nat
    }

    /// Whether the handle is one that this store made since it was last cleared.
    pub open spec fn holds(&self, index: &Index<T>) -> bool {
        index.generation() == self.spec_generation() && index.slot() < self@.len()
    }

    /// An empty store.
    pub fn new() -> (r: Self)
        ensures
            r@ == Seq::<T>::empty(),
            r.spec_generation() == 0,
    {
        Store { items: Vec::new(), generation: 0 }
    }

    /// How often the store has been cleared.
    pub fn generation(&self) -> (r: u64)
        ensures
            r == self.spec_generation(),
    {
        self.generation
    }

    /// Puts a value into the store, and hands out its handle.
    pub fn push(&mut self, item: T) -> (index: Index<T>)
        ensures
            final(self)@ == old(self)@.push(item),
            final(self).spec_generation() == old(self).spec_generation(),
            index.slot() == old(self)@.len(),
            index.generation() == old(self).spec_generation(),
            final(self).holds(&index),
    {
        self.items.push(item);
        Index { slot: self.items.len() - 1, generation: self.generation, marker: PhantomData }
    }

    /// The value that the handle is of; nothing for a stale handle.
    pub fn get(&self, index: &Index<T>) -> (r: Option<&T>)
        ensures
            r.is_some() == self.holds(index),
            r.is_some() ==> *r.unwrap() == self@[index.slot() as int],
    {
        if index.generation == self.generation && index.slot < self.items.len() {
            Some(&self.items[index.slot])
        } else {
            None
        }
    }

    /// Empties the store. The handles that it has made are stale from now on.
    pub fn clear(&mut self)
        requires
            old(self).spec_generation() < u64::MAX,
        ensures
            final(self)@ == Seq::<T>::empty(),
            final(self).spec_generation() == old(self).spec_generation() + 1,
    {
        self.items.clear();
        self.generation = self.generation + 1;
    }

    /// All the values in the store, in the order in which they came.
    pub fn iter(&self) -> (r: &[T])
        ensures
            r@ == self@,
    {
        self.items.as_slice()
    }
}

impl<T> Default for Store<T> {
    fn default() -> (r: Self)
        ensures
            r@ == Seq::<T>::empty(),
            r.spec_generation() == 0,
    {
        Store::new()
    }
}

/// A handle that a store has made finds its value until the store is
/// cleared, and nothing afterwards.
pub proof fn lemma_stale_after_clear<T>(before: Store<T>, after: Store<T>, index: Index<T>)
    requires
        before.holds(&index),
        after.spec_generation() == before.spec_generation() + 1,
    ensures
        !after.holds(&index),
{
}

} // verus!
