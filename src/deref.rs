use vstd::prelude::*;
use vstd::std_specs::iter::IteratorSpec;

use crate::indexer::{has_key, has_target, interned, key_position, keys_distinct, DupIndexer};
use crate::key::StableDerefKey;
use crate::render::map_text;

verus! {

/// An interning table that can also be probed with a borrowed form of a
/// value, building an owned value only when the probe finds no duplicate.
pub struct DupIndexerRefs<T: StableDerefKey> {
    inner: DupIndexer<T>,
}

impl<T: StableDerefKey> View for DupIndexerRefs<T> {
    type V = Seq<T>;

    /// The interned values, in identifier order.
    closed spec fn view(&self) -> Seq<T> {
        self.inner@
    }
}

impl<T: StableDerefKey> DupIndexerRefs<T> {
    /// The indexer's invariant.
    pub closed spec fn wf(&self) -> bool {
        self.inner.wf()
    }

    /// The room asked for at construction: the store never holds less.
    pub closed spec fn reserved(&self) -> nat {
        self.inner.reserved()
    }

    /// A valid indexer holds no two duplicates.
    pub proof fn lemma_wf_distinct(&self)
        requires
            self.wf(),
        ensures
            keys_distinct(self@),
    {
        self.inner.lemma_wf_distinct();
    }

    /// Constructs a new, empty indexer.
    pub fn new() -> (r: Self)
        ensures
            r.wf(),
            r@ == Seq::<T>::empty(),
            r.reserved() == 0,
    {
        DupIndexerRefs { inner: DupIndexer::new() }
    }

    /// Constructs a new, empty indexer with room for at least `capacity`
    /// values before it must grow.
    pub fn with_capacity(capacity: usize) -> (r: Self)
        ensures
            r.wf(),
            r@ == Seq::<T>::empty(),
            r.reserved() == capacity,
    {
        DupIndexerRefs { inner: DupIndexer::with_capacity(capacity) }
    }

    /// Returns the number of values the indexer can hold without reallocating.
    pub fn capacity(&self) -> (r: usize)
        ensures
            r >= self@.len(),
            r >= self.reserved(),
            self@.len() == 0 && self.reserved() == 0 && vstd::layout::size_of::<T>() != 0 ==> r
                == 0,
    {
        self.inner.capacity()
    }

    /// The interned values, in identifier order.
    pub fn as_slice(&self) -> (r: &[T])
        ensures
            r@ == self@,
    {
        self.inner.as_slice()
    }

    /// The number of distinct values interned.
    pub fn len(&self) -> (r: usize)
        ensures
            r == self@.len(),
    {
        self.inner.len()
    }

    /// Whether no value has been interned.
    pub fn is_empty(&self) -> (r: bool)
        ensures
            r == (self@.len() == 0),
    {
        self.inner.is_empty()
    }

    /// Converts the indexer into the vector of its distinct values, in
    /// identifier order.
    pub fn into_vec(self) -> (r: Vec<T>)
        ensures
            r@ == self@,
    {
        self.inner.into_vec()
    }

    /// Interns an owned value: returns the identifier of its stored
    /// duplicate if there is one, else stores it under the next identifier.
    pub fn insert_owned(&mut self, value: T) -> (id: usize)
        requires
            old(self).wf(),
        ensures
            final(self).wf(),
            final(self)@ == interned(old(self)@, value),
            keys_distinct(final(self)@),
            final(self).reserved() == old(self).reserved(),
            has_key(old(self)@, value) ==> id < old(self)@.len(),
            !has_key(old(self)@, value) ==> id == old(self)@.len(),
            id < final(self)@.len(),
            final(self)@[id as int].same_key(&value),
            id == key_position(final(self)@, value),
    {
        self.inner.insert(value)
    }

    /// Interns the value that `value` borrows: returns the identifier of a
    /// stored owned form of it if there is one, building nothing; else
    /// stores a new owned form under the next identifier.
    pub fn insert_ref(&mut self, value: &T::Target) -> (id: usize)
        requires
            old(self).wf(),
        ensures
            final(self).wf(),
            has_target(old(self)@, value) ==> final(self)@ == old(self)@ && id < old(self)@.len(),
            !has_target(old(self)@, value) ==> {
                &&& final(self)@ == old(self)@.push(final(self)@.last())
                &&& id == old(self)@.len()
            },
            id < final(self)@.len(),
            final(self)@[id as int].owns(value),
            forall|i: int|
                0 <= i < old(self)@.len() && #[trigger] old(self)@[i].owns(value) ==> id == i,
            keys_distinct(final(self)@),
            final(self).reserved() == old(self).reserved(),
    {
        match self.inner.find_target(value) {
            Some(id) => {
                proof {
                    self.inner.lemma_wf_distinct();
                    assert forall|i: int|
                        0 <= i < self@.len() && #[trigger] self@[i].owns(value) implies id == i by {
                        T::lemma_target_laws(&self@[id as int], &self@[i], value);
                    }
                }
                id
            },
            None => {
                let owned = T::to_owned_key(value);
                proof {
                    assert forall|i: int|
                        0 <= i < self@.len() implies !#[trigger] self@[i].same_key(&owned) by {
                        T::lemma_key_laws(&self@[i], &owned, &owned);
                        T::lemma_target_laws(&owned, &self@[i], value);
                    }
                }
                let id = self.inner.insert(owned);
                proof {
                    T::lemma_target_laws(&owned, &self@[id as int], value);
                    T::lemma_key_laws(&self@[id as int], &owned, &owned);
                    assert(self@.last() == owned);
                }
                id
            },
        }
    }
}

impl<T: StableDerefKey + std::fmt::Debug> DupIndexerRefs<T> {
    /// Renders the identifier-to-value map for diagnostics, in identifier
    /// order, each value by its `Debug` text: `{0: "foo", 1: "bar"}`.
    pub fn debug_string(&self) -> (r: String)
        ensures
            exists|texts: Seq<Seq<char>>| texts.len() == self@.len() && r@ == map_text(texts),
    {
        self.inner.debug_string()
    }
}

impl<T: StableDerefKey> Default for DupIndexerRefs<T> {
    /// An empty indexer.
    fn default() -> (r: Self)
        ensures
            r.wf(),
            r@ == Seq::<T>::empty(),
            r.reserved() == 0,
    {
        Self::new()
    }
}

impl<T: StableDerefKey> std::ops::Index<usize> for DupIndexerRefs<T> {
    type Output = T;

    /// The value with identifier `index`.
    fn index(&self, index: usize) -> (r: &T)
        ensures
            *r == self@[index as int],
    {
        &self.inner[index]
    }
}

impl<T: StableDerefKey> vstd::std_specs::core::IndexSpecImpl<usize> for DupIndexerRefs<T> {
    open spec fn index_req(&self, index: &usize) -> bool {
        *index < self@.len()
    }
}

impl<T: StableDerefKey> std::ops::Deref for DupIndexerRefs<T> {
    type Target = [T];

    /// The interned values, in identifier order.
    fn deref(&self) -> (r: &[T])
        ensures
            r@ == self@,
    {
        self.inner.as_slice()
    }
}

impl<T: StableDerefKey> IntoIterator for DupIndexerRefs<T> {
    type Item = T;
    type IntoIter = std::vec::IntoIter<T>;

    /// Iterates over the interned values, in identifier order.
    fn into_iter(self) -> (r: std::vec::IntoIter<T>)
        ensures
            IteratorSpec::remaining(&r) == self@,
    {
        self.inner.into_iter()
    }
}

} // verus!
