//! An association list that keeps its entries in insertion order.

use vstd::prelude::*;

verus! {

/// A list of key-value pairs, kept in the order in which they were given.
#[derive(Debug, Clone, PartialEq, Eq, Hash)]
pub struct VecMap<K, V>(pub Vec<(K, V)>);

impl<K, V> View for VecMap<K, V> {
    type V = Seq<(K, V)>;

    open spec fn view(&self) -> Seq<(K, V)> {
        self.0@
    }
}

impl<K, V> VecMap<K, V> {
    /// The keys, in order.
    pub open spec fn keys(&self) -> Seq<K> {
        Seq::new(self@.len(), |i: int| self@[i].0)
    }

    /// The values, in order.
    pub open spec fn values(&self) -> Seq<V> {
        Seq::new(self@.len(), |i: int| self@[i].1)
    }

    /// A map without entries.
    pub fn new() -> (r: Self)
        ensures
            r@ == Seq::<(K, V)>::empty(),
    {
        VecMap(Vec::new())
    }

    /// The number of entries.
    pub fn len(&self) -> (r: usize)
        ensures
            r == self@.len(),
    {
        self.0.len()
    }

    /// The entry at position `i`.
    pub fn get(&self, i: usize) -> (r: &(K, V))
        requires
            i < self@.len(),
        ensures
            *r == self@[i as int],
    {
        &self.0[i]
    }

    /// Adds an entry behind the others.
    pub fn push(&mut self, key: K, value: V)
        ensures
            final(self)@ == old(self)@.push((key, value)),
    {
        self.0.push((key, value));
    }

    /// The entries, in order.
    pub fn iter(&self) -> (r: &Vec<(K, V)>)
        ensures
            r@ == self@,
    {
        &self.0
    }
}

impl<K, V> Default for VecMap<K, V> {
    fn default() -> (r: Self)
        ensures
            r@ == Seq::<(K, V)>::empty(),
    {
        VecMap(Vec::new())
    }
}

impl<K, V> From<Vec<(K, V)>> for VecMap<K, V> {
    fn from(value: Vec<(K, V)>) -> (r: Self) {
        VecMap(value)
    }
}

impl<K, V> vstd::std_specs::convert::FromSpecImpl<Vec<(K, V)>> for VecMap<K, V> {
    open spec fn obeys_from_spec() -> bool {
        true
    }

    open spec fn from_spec(value: Vec<(K, V)>) -> Self {
        VecMap(value)
    }
}

} // verus!
