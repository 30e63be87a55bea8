use vstd::prelude::*;
use vstd::utf8::{encode_utf8, encode_utf8_decode_utf8};

verus! {

/// A value that a `DupIndexer` can intern.
///
/// Two values are duplicates when `same_key` holds between them. The
/// relation is an equivalence, and duplicates hash alike, so the indexer can
/// keep only identifiers in its lookup table and compare candidates against
/// the values it already stores: no second copy of a value is ever made.
///
/// The impls in this crate are verified. An impl written outside the
/// verifier is taken on trust: the indexer's guarantees then hold only if its
/// `key_eq` is an equivalence relation and values it calls equal get equal
/// `key_hash`es.
pub trait PtrRead: Sized {
    /// Whether `self` and `other` count as the same value.
    spec fn same_key(&self, other: &Self) -> bool;

    /// The hash of the value.
    spec fn key_hash_spec(&self) -> u64;

    /// `same_key` is an equivalence relation, and duplicates hash alike.
    proof fn lemma_key_laws(a: &Self, b: &Self, c: &Self)
        ensures
            a.same_key(a),
            a.same_key(b) ==> b.same_key(a),
            a.same_key(b) && b.same_key(c) ==> a.same_key(c),
            a.same_key(b) ==> a.key_hash_spec() == b.key_hash_spec(),
    ;

    /// Compares two values.
    fn key_eq(&self, other: &Self) -> (r: bool)
        ensures
            r == self.same_key(other),
    ;

    /// Hashes a value.
    fn key_hash(&self) -> (r: u64)
        ensures
            r == self.key_hash_spec(),
    ;
}

/// A value that can also be looked up by a borrowed form of it (a `String`
/// by a `&str`), so that a probe that finds a stored duplicate builds no
/// owned value at all.
pub trait StableDerefKey: PtrRead {
    /// The borrowed form.
    type Target: ?Sized;

    /// Whether `self` is an owned form of `t`.
    spec fn owns(&self, t: &Self::Target) -> bool;

    /// The hash of a borrowed form: that of its owned forms.
    spec fn target_hash_spec(t: &Self::Target) -> u64;

    /// An owned form of `t` hashes like `t`, and the other owned forms of
    /// `t` are exactly its duplicates.
    proof fn lemma_target_laws(a: &Self, b: &Self, t: &Self::Target)
        ensures
            a.owns(t) ==> a.key_hash_spec() == Self::target_hash_spec(t),
            a.owns(t) ==> (b.owns(t) <==> a.same_key(b)),
    ;

    /// Compares a value with a borrowed form.
    fn target_eq(&self, t: &Self::Target) -> (r: bool)
        ensures
            r == self.owns(t),
    ;

    /// Hashes a borrowed form.
    fn target_hash(t: &Self::Target) -> (r: u64)
        ensures
            r == Self::target_hash_spec(t),
    ;

    /// Builds an owned form of `t`.
    fn to_owned_key(t: &Self::Target) -> (r: Self)
        ensures
            r.owns(t),
    ;
}

/// An integer is its own key; its hash is its low 64 bits.
impl PtrRead for u8 {
    open spec fn same_key(&self, other: &Self) -> bool {
        *self == *other
    }

    open spec fn key_hash_spec(&self) -> u64 {
        *self as u64
    }

    proof fn lemma_key_laws(a: &Self, b: &Self, c: &Self) {
    }

    fn key_eq(&self, other: &Self) -> (r: bool) {
        *self == *other
    }

    fn key_hash(&self) -> (r: u64) {
        *self as u64
    }
}

/// An integer is its own key; its hash is its low 64 bits.
impl PtrRead for u16 {
    open spec fn same_key(&self, other: &Self) -> bool {
        *self == *other
    }

    open spec fn key_hash_spec(&self) -> u64 {
        *self as u64
    }

    proof fn lemma_key_laws(a: &Self, b: &Self, c: &Self) {
    }

    fn key_eq(&self, other: &Self) -> (r: bool) {
        *self == *other
    }

    fn key_hash(&self) -> (r: u64) {
        *self as u64
    }
}

/// An integer is its own key; its hash is its low 64 bits.
impl PtrRead for u32 {
    open spec fn same_key(&self, other: &Self) -> bool {
        *self == *other
    }

    open spec fn key_hash_spec(&self) -> u64 {
        *self as u64
    }

    proof fn lemma_key_laws(a: &Self, b: &Self, c: &Self) {
    }

    fn key_eq(&self, other: &Self) -> (r: bool) {
        *self == *other
    }

    fn key_hash(&self) -> (r: u64) {
        *self as u64
    }
}

/// An integer is its own key; its hash is its low 64 bits.
impl PtrRead for u64 {
    open spec fn same_key(&self, other: &Self) -> bool {
        *self == *other
    }

    open spec fn key_hash_spec(&self) -> u64 {
        *self
    }

    proof fn lemma_key_laws(a: &Self, b: &Self, c: &Self) {
    }

    fn key_eq(&self, other: &Self) -> (r: bool) {
        *self == *other
    }

    fn key_hash(&self) -> (r: u64) {
        *self
    }
}

/// An integer is its own key; its hash is its low 64 bits.
impl PtrRead for u128 {
    open spec fn same_key(&self, other: &Self) -> bool {
        *self == *other
    }

    open spec fn key_hash_spec(&self) -> u64 {
        *self as u64
    }

    proof fn lemma_key_laws(a: &Self, b: &Self, c: &Self) {
    }

    fn key_eq(&self, other: &Self) -> (r: bool) {
        *self == *other
    }

    fn key_hash(&self) -> (r: u64) {
        *self as u64
    }
}

/// An integer is its own key; its hash is its low 64 bits.
impl PtrRead for usize {
    open spec fn same_key(&self, other: &Self) -> bool {
        *self == *other
    }

    open spec fn key_hash_spec(&self) -> u64 {
        *self as u64
    }

    proof fn lemma_key_laws(a: &Self, b: &Self, c: &Self) {
    }

    fn key_eq(&self, other: &Self) -> (r: bool) {
        *self == *other
    }

    fn key_hash(&self) -> (r: u64) {
        *self as u64
    }
}

/// An integer is its own key; its hash is its low 64 bits.
impl PtrRead for i8 {
    open spec fn same_key(&self, other: &Self) -> bool {
        *self == *other
    }

    open spec fn key_hash_spec(&self) -> u64 {
        *self as u64
    }

    proof fn lemma_key_laws(a: &Self, b: &Self, c: &Self) {
    }

    fn key_eq(&self, other: &Self) -> (r: bool) {
        *self == *other
    }

    fn key_hash(&self) -> (r: u64) {
        *self as u64
    }
}

/// An integer is its own key; its hash is its low 64 bits.
impl PtrRead for i16 {
    open spec fn same_key(&self, other: &Self) -> bool {
        *self == *other
    }

    open spec fn key_hash_spec(&self) -> u64 {
        *self as u64
    }

    proof fn lemma_key_laws(a: &Self, b: &Self, c: &Self) {
    }

    fn key_eq(&self, other: &Self) -> (r: bool) {
        *self == *other
    }

    fn key_hash(&self) -> (r: u64) {
        *self as u64
    }
}

/// An integer is its own key; its hash is its low 64 bits.
impl PtrRead for i32 {
    open spec fn same_key(&self, other: &Self) -> bool {
        *self == *other
    }

    open spec fn key_hash_spec(&self) -> u64 {
        *self as u64
    }

    proof fn lemma_key_laws(a: &Self, b: &Self, c: &Self) {
    }

    fn key_eq(&self, other: &Self) -> (r: bool) {
        *self == *other
    }

    fn key_hash(&self) -> (r: u64) {
        *self as u64
    }
}

/// An integer is its own key; its hash is its low 64 bits.
impl PtrRead for i64 {
    open spec fn same_key(&self, other: &Self) -> bool {
        *self == *other
    }

    open spec fn key_hash_spec(&self) -> u64 {
        *self as u64
    }

    proof fn lemma_key_laws(a: &Self, b: &Self, c: &Self) {
    }

    fn key_eq(&self, other: &Self) -> (r: bool) {
        *self == *other
    }

    fn key_hash(&self) -> (r: u64) {
        *self as u64
    }
}

/// An integer is its own key; its hash is its low 64 bits.
impl PtrRead for i128 {
    open spec fn same_key(&self, other: &Self) -> bool {
        *self == *other
    }

    open spec fn key_hash_spec(&self) -> u64 {
        *self as u64
    }

    proof fn lemma_key_laws(a: &Self, b: &Self, c: &Self) {
    }

    fn key_eq(&self, other: &Self) -> (r: bool) {
        *self == *other
    }

    fn key_hash(&self) -> (r: u64) {
        *self as u64
    }
}

/// An integer is its own key; its hash is its low 64 bits.
impl PtrRead for isize {
    open spec fn same_key(&self, other: &Self) -> bool {
        *self == *other
    }

    open spec fn key_hash_spec(&self) -> u64 {
        *self as u64
    }

    proof fn lemma_key_laws(a: &Self, b: &Self, c: &Self) {
    }

    fn key_eq(&self, other: &Self) -> (r: bool) {
        *self == *other
    }

    fn key_hash(&self) -> (r: u64) {
        *self as u64
    }
}

/// A boolean is its own key.
impl PtrRead for bool {
    open spec fn same_key(&self, other: &Self) -> bool {
        *self == *other
    }

    open spec fn key_hash_spec(&self) -> u64 {
        if *self { 1 } else { 0 }
    }

    proof fn lemma_key_laws(a: &Self, b: &Self, c: &Self) {
    }

    fn key_eq(&self, other: &Self) -> (r: bool) {
        *self == *other
    }

    fn key_hash(&self) -> (r: u64) {
        if *self { 1 } else { 0 }
    }
}

/// A character is its own key; its hash is its code point.
impl PtrRead for char {
    open spec fn same_key(&self, other: &Self) -> bool {
        *self == *other
    }

    open spec fn key_hash_spec(&self) -> u64 {
        *self as u64
    }

    proof fn lemma_key_laws(a: &Self, b: &Self, c: &Self) {
    }

    fn key_eq(&self, other: &Self) -> (r: bool) {
        *self == *other
    }

    fn key_hash(&self) -> (r: u64) {
        *self as u64
    }
}

/// Starting value of the byte and element hashes (FNV-1a offset basis).
pub const HASH_SEED: u64 = 0xcbf2_9ce4_8422_2325;

/// Multiplier of the byte and element hashes (FNV-1a prime).
pub const HASH_PRIME: u64 = 0x0000_0100_0000_01b3;

/// Folds one 64-bit word into a running hash.
pub open spec fn hash_step(h: u64, x: u64) -> u64 {
    (h ^ x).wrapping_mul(HASH_PRIME)
}

/// FNV-1a hash of a byte sequence.
pub open spec fn hash_bytes(b: Seq<u8>) -> u64
    decreases b.len(),
{
    if b.len() == 0 {
        HASH_SEED
    } else {
        hash_step(hash_bytes(b.drop_last()), b.last() as u64)
    }
}

/// Hash of a byte slice, as `hash_bytes` states it.
fn hash_byte_slice(b: &[u8]) -> (r: u64)
    ensures
        r == hash_bytes(b@),
{
    let mut h: u64 = HASH_SEED;
    let mut i: usize = 0;
    while i < b.len()
        invariant
            0 <= i <= b@.len(),
            h == hash_bytes(b@.take(i as int)),
        decreases b@.len() - i,
    {
        proof {
            assert(b@.take(i + 1).drop_last() =~= b@.take(i as int));
        }
        h = (h ^ (b[i] as u64)).wrapping_mul(HASH_PRIME);
        i = i + 1;
    }
    proof {
        assert(b@.take(b@.len() as int) =~= b@);
    }
    h
}

/// A string is keyed by its characters and hashed over its UTF-8 bytes.
impl PtrRead for String {
    open spec fn same_key(&self, other: &Self) -> bool {
        self@ == other@
    }

    open spec fn key_hash_spec(&self) -> u64 {
        hash_bytes(encode_utf8(self@))
    }

    proof fn lemma_key_laws(a: &Self, b: &Self, c: &Self) {
    }

    fn key_eq(&self, other: &Self) -> (r: bool) {
        *self == *other
    }

    fn key_hash(&self) -> (r: u64) {
        hash_byte_slice(self.as_str().as_bytes())
    }
}

/// A string slice is keyed by its characters and hashed over its UTF-8 bytes.
impl<'a> PtrRead for &'a str {
    open spec fn same_key(&self, other: &Self) -> bool {
        (*self)@ == (*other)@
    }

    open spec fn key_hash_spec(&self) -> u64 {
        hash_bytes(encode_utf8((*self)@))
    }

    proof fn lemma_key_laws(a: &Self, b: &Self, c: &Self) {
    }

    fn key_eq(&self, other: &Self) -> (r: bool) {
        str_eq(*self, *other)
    }

    fn key_hash(&self) -> (r: u64) {
        hash_byte_slice(self.as_bytes())
    }
}

/// A string is looked up by a string slice with the same characters.
impl StableDerefKey for String {
    type Target = str;

    open spec fn owns(&self, t: &str) -> bool {
        self@ == t@
    }

    open spec fn target_hash_spec(t: &str) -> u64 {
        hash_bytes(encode_utf8(t@))
    }

    proof fn lemma_target_laws(a: &Self, b: &Self, t: &str) {
    }

    fn target_eq(&self, t: &str) -> (r: bool) {
        str_eq(self.as_str(), t)
    }

    fn target_hash(t: &str) -> (r: u64) {
        hash_byte_slice(t.as_bytes())
    }

    fn to_owned_key(t: &str) -> (r: Self) {
        t.to_owned()
    }
}

/// Compares two string slices by their UTF-8 bytes, which encode the
/// characters one to one.
fn str_eq(a: &str, b: &str) -> (r: bool)
    ensures
        r == (a@ == b@),
{
    let x = a.as_bytes();
    let y = b.as_bytes();
    proof {
        encode_utf8_decode_utf8(a@);
        encode_utf8_decode_utf8(b@);
    }
    if x.len() != y.len() {
        return false;
    }
    let mut i: usize = 0;
    while i < x.len()
        invariant
            0 <= i <= x@.len(),
            x@.len() == y@.len(),
            x@ == encode_utf8(a@),
            y@ == encode_utf8(b@),
            forall|j: int| 0 <= j < i ==> x@[j] == y@[j],
        decreases x@.len() - i,
    {
        if x[i] != y[i] {
            return false;
        }
        i = i + 1;
    }
    proof {
        assert(x@ =~= y@);
    }
    true
}

/// The hash of a sequence of values, folded from their own hashes.
pub open spec fn hash_elems<T: PtrRead>(s: Seq<T>) -> u64
    decreases s.len(),
{
    if s.len() == 0 {
        HASH_SEED
    } else {
        hash_step(hash_elems(s.drop_last()), s.last().key_hash_spec())
    }
}

/// Element-wise duplicates have the same hash.
proof fn lemma_hash_elems<T: PtrRead>(a: Seq<T>, b: Seq<T>)
    requires
        a.len() == b.len(),
        forall|i: int| 0 <= i < a.len() ==> #[trigger] a[i].same_key(&b[i]),
    ensures
        hash_elems(a) == hash_elems(b),
    decreases a.len(),
{
    if a.len() > 0 {
        let (x, y) = (a.drop_last(), b.drop_last());
        assert forall|i: int| 0 <= i < x.len() implies #[trigger] x[i].same_key(&y[i]) by {
            assert(a[i].same_key(&b[i]));
        }
        lemma_hash_elems(x, y);
        T::lemma_key_laws(&a.last(), &b.last(), &b.last());
        assert(a[a.len() - 1].same_key(&b[a.len() - 1]));
    }
}

/// Element-wise duplicates: same length, and duplicates position by
/// position.
pub open spec fn seq_same_key<T: PtrRead>(a: Seq<T>, b: Seq<T>) -> bool {
    &&& a.len() == b.len()
    &&& forall|i: int| 0 <= i < a.len() ==> #[trigger] a[i].same_key(&b[i])
}

/// `seq_same_key` is an equivalence relation, and element-wise duplicates
/// hash alike.
proof fn lemma_seq_key_laws<T: PtrRead>(a: Seq<T>, b: Seq<T>, c: Seq<T>)
    ensures
        seq_same_key(a, a),
        seq_same_key(a, b) ==> seq_same_key(b, a),
        seq_same_key(a, b) && seq_same_key(b, c) ==> seq_same_key(a, c),
        seq_same_key(a, b) ==> hash_elems(a) == hash_elems(b),
{
    assert forall|i: int| 0 <= i < a.len() implies #[trigger] a[i].same_key(&a[i]) by {
        T::lemma_key_laws(&a[i], &a[i], &a[i]);
    }
    if seq_same_key(a, b) {
        assert forall|i: int| 0 <= i < b.len() implies #[trigger] b[i].same_key(&a[i]) by {
            T::lemma_key_laws(&a[i], &b[i], &b[i]);
        }
        lemma_hash_elems(a, b);
        if seq_same_key(b, c) {
            assert forall|i: int| 0 <= i < a.len() implies #[trigger] a[i].same_key(&c[i]) by {
                T::lemma_key_laws(&a[i], &b[i], &c[i]);
            }
        }
    }
}

/// Compares two slices element by element.
fn slice_key_eq<T: PtrRead>(a: &[T], b: &[T]) -> (r: bool)
    ensures
        r == seq_same_key(a@, b@),
{
    if a.len() != b.len() {
        return false;
    }
    let mut i: usize = 0;
    while i < a.len()
        invariant
            0 <= i <= a@.len(),
            a@.len() == b@.len(),
            forall|j: int| 0 <= j < i ==> #[trigger] a@[j].same_key(&b@[j]),
        decreases a@.len() - i,
    {
        if !a[i].key_eq(&b[i]) {
            return false;
        }
        i = i + 1;
    }
    true
}

/// Hashes a slice from its elements' hashes.
fn slice_key_hash<T: PtrRead>(a: &[T]) -> (r: u64)
    ensures
        r == hash_elems(a@),
{
    let mut h: u64 = HASH_SEED;
    let mut i: usize = 0;
    while i < a.len()
        invariant
            0 <= i <= a@.len(),
            h == hash_elems(a@.take(i as int)),
        decreases a@.len() - i,
    {
        proof {
            assert(a@.take(i + 1).drop_last() =~= a@.take(i as int));
        }
        h = (h ^ a[i].key_hash()).wrapping_mul(HASH_PRIME);
        i = i + 1;
    }
    proof {
        assert(a@.take(a@.len() as int) =~= a@);
    }
    h
}

/// A vector is keyed element by element.
impl<T: PtrRead> PtrRead for Vec<T> {
    open spec fn same_key(&self, other: &Self) -> bool {
        seq_same_key(self@, other@)
    }

    open spec fn key_hash_spec(&self) -> u64 {
        hash_elems(self@)
    }

    proof fn lemma_key_laws(a: &Self, b: &Self, c: &Self) {
        lemma_seq_key_laws(a@, b@, c@);
    }

    fn key_eq(&self, other: &Self) -> (r: bool) {
        slice_key_eq(self.as_slice(), other.as_slice())
    }

    fn key_hash(&self) -> (r: u64) {
        slice_key_hash(self.as_slice())
    }
}

/// An array is keyed element by element.
impl<T: PtrRead, const N: usize> PtrRead for [T; N] {
    open spec fn same_key(&self, other: &Self) -> bool {
        seq_same_key(self@, other@)
    }

    open spec fn key_hash_spec(&self) -> u64 {
        hash_elems(self@)
    }

    proof fn lemma_key_laws(a: &Self, b: &Self, c: &Self) {
        lemma_seq_key_laws(a@, b@, c@);
    }

    fn key_eq(&self, other: &Self) -> (r: bool) {
        slice_key_eq(self, other)
    }

    fn key_hash(&self) -> (r: u64) {
        slice_key_hash(self)
    }
}

/// An option is keyed by its variant and, for `Some`, by its content.
impl<T: PtrRead> PtrRead for Option<T> {
    open spec fn same_key(&self, other: &Self) -> bool {
        match (self, other) {
            (Some(x), Some(y)) => x.same_key(y),
            (None, None) => true,
            _ => false,
        }
    }

    open spec fn key_hash_spec(&self) -> u64 {
        match self {
            Some(x) => hash_step(HASH_SEED, x.key_hash_spec()),
            None => HASH_SEED,
        }
    }

    proof fn lemma_key_laws(a: &Self, b: &Self, c: &Self) {
        if let (Some(x), Some(y), Some(z)) = (a, b, c) {
            T::lemma_key_laws(x, y, z);
        } else if let (Some(x), Some(y)) = (a, b) {
            T::lemma_key_laws(x, y, y);
        } else if let Some(x) = a {
            T::lemma_key_laws(x, x, x);
        }
    }

    fn key_eq(&self, other: &Self) -> (r: bool) {
        match (self, other) {
            (Some(x), Some(y)) => x.key_eq(y),
            (None, None) => true,
            _ => false,
        }
    }

    fn key_hash(&self) -> (r: u64) {
        match self {
            Some(x) => (HASH_SEED ^ x.key_hash()).wrapping_mul(HASH_PRIME),
            None => HASH_SEED,
        }
    }
}

/// The unit value has a single key.
impl PtrRead for () {
    open spec fn same_key(&self, other: &Self) -> bool {
        true
    }

    open spec fn key_hash_spec(&self) -> u64 {
        0
    }

    proof fn lemma_key_laws(a: &Self, b: &Self, c: &Self) {
    }

    fn key_eq(&self, other: &Self) -> (r: bool) {
        true
    }

    fn key_hash(&self) -> (r: u64) {
        0
    }
}

/// The layout of `std::num::Wrapping`: a public field holding the value.
#[verifier::external_type_specification]
#[verifier::reject_recursive_types(T)]
pub struct ExWrapping<T>(std::num::Wrapping<T>);

/// A wrapping number is keyed by the value it wraps.
impl<T: PtrRead> PtrRead for std::num::Wrapping<T> {
    open spec fn same_key(&self, other: &Self) -> bool {
        self.0.same_key(&other.0)
    }

    open spec fn key_hash_spec(&self) -> u64 {
        self.0.key_hash_spec()
    }

    proof fn lemma_key_laws(a: &Self, b: &Self, c: &Self) {
        T::lemma_key_laws(&a.0, &b.0, &c.0);
    }

    fn key_eq(&self, other: &Self) -> (r: bool) {
        self.0.key_eq(&other.0)
    }

    fn key_hash(&self) -> (r: u64) {
        self.0.key_hash()
    }
}

} // verus!
