use std::collections::HashMap;
use vstd::prelude::*;
use vstd::std_specs::iter::IteratorSpec;

use crate::key::{PtrRead, StableDerefKey};
use crate::render::{map_text, render_map};

verus! {

/// Whether some element of `s` is a duplicate of `v`.
pub open spec fn has_key<T: PtrRead>(s: Seq<T>, v: T) -> bool {
    exists|i: int| 0 <= i < s.len() && #[trigger] s[i].same_key(&v)
}

/// No two elements of `s` are duplicates of each other.
pub open spec fn keys_distinct<T: PtrRead>(s: Seq<T>) -> bool {
    forall|i: int, j: int|
        #![trigger s[i].same_key(&s[j])]
        0 <= i < s.len() && 0 <= j < s.len() && i != j ==> !s[i].same_key(&s[j])
}

/// The position of the element of `s` that `v` duplicates, where there is one.
pub open spec fn key_position<T: PtrRead>(s: Seq<T>, v: T) -> int {
    choose|i: int| 0 <= i < s.len() && #[trigger] s[i].same_key(&v)
}

/// The interned values after `v` is offered to an indexer holding `s`:
/// unchanged where `v` duplicates one of them, else `v` appended.
pub open spec fn interned<T: PtrRead>(s: Seq<T>, v: T) -> Seq<T> {
    if has_key(s, v) {
        s
    } else {
        s.push(v)
    }
}

/// Whether some element of `s` is an owned form of `t`.
pub open spec fn has_target<T: StableDerefKey>(s: Seq<T>, t: &T::Target) -> bool {
    exists|i: int| 0 <= i < s.len() && #[trigger] s[i].owns(t)
}

/// In a sequence without duplicates, the element that `v` duplicates is
/// the one `key_position` picks.
pub(crate) proof fn lemma_position_unique<T: PtrRead>(s: Seq<T>, v: T, i: int)
    requires
        keys_distinct(s),
        0 <= i < s.len(),
        s[i].same_key(&v),
    ensures
        has_key(s, v),
        key_position(s, v) == i,
{
    let j = key_position(s, v);
    assert(0 <= j < s.len() && s[j].same_key(&v));
    T::lemma_key_laws(&s[j], &v, &s[i]);
    T::lemma_key_laws(&s[i], &v, &v);
    if j != i {
        assert(s[j].same_key(&s[i]));
    }
}

/// Whether identifier `i` is among `ids`.
spec fn holds_id(ids: Seq<usize>, i: int) -> bool {
    exists|k: int| 0 <= k < ids.len() && ids[k] as int == i
}

/// An append-only interning table.
///
/// Each distinct value (under `PtrRead::same_key`) is stored once and gets
/// the identifier equal to its rank of first appearance. The lookup table
/// maps a hash to the identifiers of the stored values with that hash, so it
/// owns no copy of any value.
pub struct DupIndexer<T> {
    values: Vec<T>,
    lookup: HashMap<u64, Vec<usize>>,
    reserved: Ghost<nat>,
}

impl<T> View for DupIndexer<T> {
    type V = Seq<T>;

    /// The interned values, in identifier order.
    closed spec fn view(&self) -> Seq<T> {
        self.values@
    }
}

impl<T: PtrRead> DupIndexer<T> {
    /// The identifiers filed under hash `h`.
    closed spec fn bucket(&self, h: u64) -> Seq<usize> {
        if self.lookup@.contains_key(h) {
            self.lookup@[h]@
        } else {
            Seq::empty()
        }
    }

    /// The room asked for at construction: the store never holds less.
    pub closed spec fn reserved(&self) -> nat {
        self.reserved@
    }

    /// The indexer's invariant: stored values are pairwise distinct, each is
    /// filed under its hash, and every filed identifier names a stored value
    /// with that hash.
    pub closed spec fn wf(&self) -> bool {
        &&& keys_distinct(self.values@)
        &&& forall|i: int|
            0 <= i < self.values@.len() ==> holds_id(
                self.bucket(#[trigger] self.values@[i].key_hash_spec()),
                i,
            )
        &&& forall|h: u64, k: int|
            0 <= k < self.bucket(h).len() ==> {
                &&& #[trigger] self.bucket(h)[k] < self.values@.len()
                &&& self.values@[self.bucket(h)[k] as int].key_hash_spec() == h
            }
    }

    /// A valid indexer holds no two duplicates.
    pub proof fn lemma_wf_distinct(&self)
        requires
            self.wf(),
        ensures
            keys_distinct(self@),
    {
    }

    /// Constructs a new, empty indexer.
    pub fn new() -> (r: Self)
        ensures
            r.wf(),
            r@ == Seq::<T>::empty(),
            r.reserved() == 0,
    {
        DupIndexer { values: Vec::new(), lookup: HashMap::new(), reserved: Ghost(0) }
    }

    /// Constructs a new, empty indexer with room for at least `capacity`
    /// values before it must grow.
    pub fn with_capacity(capacity: usize) -> (r: Self)
        ensures
            r.wf(),
            r@ == Seq::<T>::empty(),
            r.reserved() == capacity,
    {
        DupIndexer {
            values: Vec::with_capacity(capacity),
            lookup: HashMap::with_capacity(capacity),
            reserved: Ghost(capacity as nat),
        }
    }

    /// Returns the number of values the indexer can hold without reallocating.
    ///
    /// Relies on `Vec::capacity`: a vector never holds less room than its
    /// length, `Vec::with_capacity(n)` gives room for at least `n` and pushes
    /// never shrink it, and a vector that has not allocated (`Vec::new`,
    /// `Vec::with_capacity(0)`) has capacity 0 unless its elements are
    /// zero-sized.
    #[verifier::external_body]
    pub fn capacity(&self) -> (r: usize)
        ensures
            r >= self@.len(),
            r >= self.reserved(),
            self@.len() == 0 && self.reserved() == 0 && vstd::layout::size_of::<T>() != 0 ==> r
                == 0,
    {
        self.values.capacity()
    }

    /// The interned values, in identifier order.
    pub fn as_slice(&self) -> (r: &[T])
        ensures
            r@ == self@,
    {
        self.values.as_slice()
    }

    /// The number of distinct values interned.
    pub fn len(&self) -> (r: usize)
        ensures
            r == self@.len(),
    {
        self.values.len()
    }

    /// Whether no value has been interned.
    pub fn is_empty(&self) -> (r: bool)
        ensures
            r == (self@.len() == 0),
    {
        self.values.len() == 0
    }

    /// Converts the indexer into the vector of its distinct values, in
    /// identifier order.
    pub fn into_vec(self) -> (r: Vec<T>)
        ensures
            r@ == self@,
    {
        self.values
    }

    /// Interns `value`: returns the identifier of its stored duplicate if
    /// there is one (and drops `value`), else stores `value` under the next
    /// identifier, which is the number of values stored before.
    pub fn insert(&mut self, value: T) -> (id: usize)
        requires
            old(self).wf(),
        ensures
            final(self).wf(),
            final(self)@ == interned(old(self)@, value),
            keys_distinct(final(self)@),
            final(self).reserved() == old(self).reserved(),
            has_key(old(self)@, value) ==> id < old(self)@.len(),
            !has_key(old(self)@, value) ==> id == old(self)@.len(),
            id < final(self)@.len(),
            final(self)@[id as int].same_key(&value),
            id == key_position(final(self)@, value),
    {
        let h = value.key_hash();
        match self.find(h, &value) {
            Some(id) => {
                proof {
                    lemma_position_unique(self@, value, id as int);
                }
                id
            },
            None => {
                let id = self.values.len();
                let ghost old_self = *self;
                let mut bucket = match self.lookup.remove(&h) {
                    Some(b) => b,
                    None => Vec::new(),
                };
                assert(bucket@ == old_self.bucket(h));
                bucket.push(id);
                self.lookup.insert(h, bucket);
                self.values.push(value);
                proof {
                    assert(self.lookup@ =~= old_self.lookup@.insert(h, self.lookup@[h]));
                    T::lemma_key_laws(&value, &value, &value);
                    self.lemma_pushed(old_self, h, value);
                    lemma_position_unique(self@, value, id as int);
                }
                id
            },
        }
    }

    /// After `value` (hash `h`, no stored duplicate) is appended and filed
    /// under `h`, the invariant holds again.
    proof fn lemma_pushed(&self, old_self: Self, h: u64, value: T)
        requires
            old_self.wf(),
            h == value.key_hash_spec(),
            !has_key(old_self@, value),
            self.values@ == old_self.values@.push(value),
            self.lookup@ == old_self.lookup@.insert(
                h,
                self.lookup@[h],
            ),
            self.lookup@[h]@ == old_self.bucket(h).push(old_self.values@.len() as usize),
            old_self.values@.len() <= usize::MAX,
        ensures
            self.wf(),
    {
        let n = old_self.values@.len();
        assert forall|i: int, j: int|
            0 <= i < self.values@.len() && 0 <= j < self.values@.len() && i != j implies !(
            #[trigger] self.values@[i].same_key(&self.values@[j])) by {
            if i == n {
                T::lemma_key_laws(&value, &self.values@[j], &self.values@[j]);
                assert(!old_self@[j].same_key(&value));
            } else if j == n {
                assert(!old_self@[i].same_key(&value));
            } else {
                assert(old_self.values@[i] == self.values@[i]);
                assert(old_self.values@[j] == self.values@[j]);
            }
        }
        assert forall|i: int| 0 <= i < self.values@.len() implies holds_id(
            self.bucket(#[trigger] self.values@[i].key_hash_spec()),
            i,
        ) by {
            let hi = self.values@[i].key_hash_spec();
            if i == n {
                assert(self.bucket(h)[self.bucket(h).len() - 1] as int == i);
            } else {
                assert(old_self.values@[i] == self.values@[i]);
                assert(holds_id(old_self.bucket(hi), i));
                let k = choose|k: int|
                    0 <= k < old_self.bucket(hi).len() && old_self.bucket(hi)[k] as int == i;
                if hi == h {
                    assert(self.bucket(h)[k] == old_self.bucket(h)[k]);
                } else {
                    assert(self.bucket(hi) == old_self.bucket(hi));
                }
            }
        }
        assert forall|g: u64, k: int| 0 <= k < self.bucket(g).len() implies {
            &&& #[trigger] self.bucket(g)[k] < self.values@.len()
            &&& self.values@[self.bucket(g)[k] as int].key_hash_spec() == g
        } by {
            if g == h {
                if k < old_self.bucket(h).len() {
                    assert(self.bucket(h)[k] == old_self.bucket(h)[k]);
                    assert(old_self.bucket(h)[k] < old_self.values@.len());
                }
            } else {
                assert(self.bucket(g) == old_self.bucket(g));
                assert(old_self.bucket(g)[k] < old_self.values@.len());
            }
        }
    }

    /// The identifier of a stored duplicate of `value`, whose hash is `h`.
    fn find(&self, h: u64, value: &T) -> (r: Option<usize>)
        requires
            self.wf(),
            h == value.key_hash_spec(),
        ensures
            match r {
                Some(i) => i < self@.len() && self@[i as int].same_key(value),
                None => !has_key(self@, *value),
            },
    {
        match self.lookup.get(&h) {
            None => {
                proof {
                    self.lemma_filed(h, value);
                }
                None
            },
            Some(bucket) => {
                let mut k: usize = 0;
                while k < bucket.len()
                    invariant
                        self.wf(),
                        h == value.key_hash_spec(),
                        bucket@ == self.bucket(h),
                        0 <= k <= bucket@.len(),
                        forall|j: int|
                            0 <= j < k ==> !self@[#[trigger] bucket@[j] as int].same_key(value),
                    decreases bucket@.len() - k,
                {
                    let i = bucket[k];
                    assert(self.bucket(h)[k as int] < self@.len());
                    if self.values[i].key_eq(value) {
                        return Some(i);
                    }
                    k = k + 1;
                }
                proof {
                    self.lemma_filed(h, value);
                    assert forall|i: int|
                        0 <= i < self@.len() implies !#[trigger] self@[i].same_key(value) by {
                        if self@[i].same_key(value) {
                            let j = choose|j: int|
                                0 <= j < bucket@.len() && #[trigger] bucket@[j] as int == i;
                            assert(!self@[bucket@[j] as int].same_key(value));
                        }
                    }
                }
                None
            },
        }
    }

    /// A stored duplicate of `value` is filed under the hash of `value`.
    proof fn lemma_filed(&self, h: u64, value: &T)
        requires
            self.wf(),
            h == value.key_hash_spec(),
        ensures
            forall|i: int|
                0 <= i < self@.len() && #[trigger] self@[i].same_key(value) ==> holds_id(
                    self.bucket(h),
                    i,
                ),
    {
        assert forall|i: int|
            0 <= i < self@.len() && #[trigger] self@[i].same_key(value) implies holds_id(
            self.bucket(h),
            i,
        ) by {
            T::lemma_key_laws(&self@[i], value, value);
        }
    }
}

impl<T: StableDerefKey> DupIndexer<T> {
    /// The identifier of a stored owned form of `value`, found without
    /// building one.
    pub(crate) fn find_target(&self, value: &T::Target) -> (r: Option<usize>)
        requires
            self.wf(),
        ensures
            match r {
                Some(i) => i < self@.len() && self@[i as int].owns(value),
                None => !has_target(self@, value),
            },
    {
        let h = T::target_hash(value);
        proof {
            assert forall|i: int|
                0 <= i < self@.len() && #[trigger] self@[i].owns(value) implies holds_id(
                self.bucket(h),
                i,
            ) by {
                T::lemma_target_laws(&self@[i], &self@[i], value);
            }
        }
        match self.lookup.get(&h) {
            None => None,
            Some(bucket) => {
                let mut k: usize = 0;
                while k < bucket.len()
                    invariant
                        self.wf(),
                        bucket@ == self.bucket(h),
                        0 <= k <= bucket@.len(),
                        forall|j: int|
                            0 <= j < k ==> !self@[#[trigger] bucket@[j] as int].owns(value),
                    decreases bucket@.len() - k,
                {
                    let i = bucket[k];
                    assert(self.bucket(h)[k as int] < self@.len());
                    if self.values[i].target_eq(value) {
                        return Some(i);
                    }
                    k = k + 1;
                }
                proof {
                    assert forall|i: int|
                        0 <= i < self@.len() implies !#[trigger] self@[i].owns(value) by {
                        if self@[i].owns(value) {
                            let j = choose|j: int|
                                0 <= j < bucket@.len() && #[trigger] bucket@[j] as int == i;
                            assert(!self@[bucket@[j] as int].owns(value));
                        }
                    }
                }
                None
            },
        }
    }
}

impl<T: PtrRead + std::fmt::Debug> DupIndexer<T> {
    /// Renders the identifier-to-value map for diagnostics, in identifier
    /// order, each value by its `Debug` text: `{0: "foo", 1: "bar"}`.
    pub fn debug_string(&self) -> (r: String)
        ensures
            exists|texts: Seq<Seq<char>>| texts.len() == self@.len() && r@ == map_text(texts),
    {
        render_map(&self.values)
    }
}

impl<T: PtrRead> Default for DupIndexer<T> {
    /// An empty indexer.
    fn default() -> (r: Self)
        ensures
            r.wf(),
            r@ == Seq::<T>::empty(),
            r.reserved() == 0,
    {
        Self::new()
    }
}

impl<T> std::ops::Index<usize> for DupIndexer<T> {
    type Output = T;

    /// The value with identifier `index`.
    fn index(&self, index: usize) -> (r: &T)
        ensures
            *r == self@[index as int],
    {
        &self.values[index]
    }
}

impl<T> vstd::std_specs::core::IndexSpecImpl<usize> for DupIndexer<T> {
    open spec fn index_req(&self, index: &usize) -> bool {
        *index < self@.len()
    }
}

impl<T> std::ops::Deref for DupIndexer<T> {
    type Target = [T];

    /// The interned values, in identifier order.
    fn deref(&self) -> (r: &[T])
        ensures
            r@ == self@,
    {
        self.values.as_slice()
    }
}

impl<T> IntoIterator for DupIndexer<T> {
    type Item = T;
    type IntoIter = std::vec::IntoIter<T>;

    /// Iterates over the interned values, in identifier order.
    fn into_iter(self) -> (r: std::vec::IntoIter<T>)
        ensures
            IteratorSpec::remaining(&r) == self@,
    {
        self.values.into_iter()
    }
}

} // verus!
