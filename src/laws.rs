use vstd::prelude::*;

use crate::indexer::{has_key, interned, key_position, keys_distinct, lemma_position_unique};
use crate::key::PtrRead;

verus! {

/// The interned values after offering each of `inputs` in turn to an
/// indexer that holds `start`.
pub open spec fn intern_from<T: PtrRead>(start: Seq<T>, inputs: Seq<T>) -> Seq<T>
    decreases inputs.len(),
{
    if inputs.len() == 0 {
        start
    } else {
        interned(intern_from(start, inputs.drop_last()), inputs.last())
    }
}

/// The interned values after offering each of `inputs` in turn to an empty
/// indexer.
pub open spec fn intern_all<T: PtrRead>(inputs: Seq<T>) -> Seq<T> {
    intern_from(Seq::empty(), inputs)
}

/// The identifier returned by the insertion of `inputs[k]`, when `inputs`
/// are inserted in turn into an empty indexer.
pub open spec fn id_at<T: PtrRead>(inputs: Seq<T>, k: int) -> int {
    key_position(intern_all(inputs.take(k + 1)), inputs[k])
}

/// Whether `inputs[k]` duplicates none of the values before it.
pub open spec fn first_seen<T: PtrRead>(inputs: Seq<T>, k: int) -> bool {
    !has_key(inputs.take(k), inputs[k])
}

/// The number of distinct values in `inputs`: those that duplicate no
/// earlier one.
pub open spec fn distinct_count<T: PtrRead>(inputs: Seq<T>) -> nat
    decreases inputs.len(),
{
    if inputs.len() == 0 {
        0
    } else {
        distinct_count(inputs.drop_last()) + if has_key(inputs.drop_last(), inputs.last()) {
            0nat
        } else {
            1nat
        }
    }
}

/// Offering the first `k + 1` inputs is offering the first `k`, then
/// `inputs[k]`.
proof fn lemma_take_step<T: PtrRead>(inputs: Seq<T>, k: int)
    requires
        0 <= k < inputs.len(),
    ensures
        intern_all(inputs.take(k + 1)) == interned(intern_all(inputs.take(k)), inputs[k]),
{
    assert(inputs.take(k + 1).drop_last() =~= inputs.take(k));
}

/// A duplicate of a duplicate of `v` is a duplicate of `v`.
proof fn lemma_has_key_trans<T: PtrRead>(s: Seq<T>, x: T, v: T)
    requires
        has_key(s, x),
        x.same_key(&v),
    ensures
        has_key(s, v),
{
    let i = choose|i: int| 0 <= i < s.len() && #[trigger] s[i].same_key(&x);
    T::lemma_key_laws(&s[i], &x, &v);
}

/// The values interned from `inputs` duplicate exactly what the inputs
/// duplicate.
proof fn lemma_intern_keys<T: PtrRead>(inputs: Seq<T>)
    ensures
        forall|v: T| has_key(intern_all(inputs), v) == has_key(inputs, v),
    decreases inputs.len(),
{
    let s = intern_all(inputs);
    if inputs.len() > 0 {
        let n = inputs.len() - 1;
        let prev = inputs.drop_last();
        let ps = intern_all(prev);
        let x = inputs.last();
        lemma_intern_keys(prev);
        assert forall|v: T| has_key(s, v) == has_key(inputs, v) by {
            if has_key(inputs, v) {
                let i = choose|i: int| 0 <= i < inputs.len() && #[trigger] inputs[i].same_key(&v);
                if i < n {
                    assert(prev[i].same_key(&v));
                    assert(has_key(prev, v));
                    let q = choose|q: int| 0 <= q < ps.len() && #[trigger] ps[q].same_key(&v);
                    assert(s[q] == ps[q]);
                } else if has_key(ps, x) {
                    lemma_has_key_trans(ps, x, v);
                    let q = choose|q: int| 0 <= q < ps.len() && #[trigger] ps[q].same_key(&v);
                    assert(s[q] == ps[q]);
                } else {
                    assert(s == ps.push(x));
                    assert(s[ps.len() as int].same_key(&v));
                }
            }
            if has_key(s, v) {
                let q = choose|q: int| 0 <= q < s.len() && #[trigger] s[q].same_key(&v);
                if q < ps.len() {
                    assert(ps[q] == s[q]);
                    assert(has_key(prev, v));
                    let i = choose|i: int| 0 <= i < prev.len() && #[trigger] prev[i].same_key(&v);
                    assert(inputs[i] == prev[i]);
                } else {
                    assert(inputs[n].same_key(&v));
                }
            }
        }
    }
}

/// The values interned from `inputs` are pairwise distinct, and as many as
/// the distinct inputs.
proof fn lemma_intern_distinct<T: PtrRead>(inputs: Seq<T>)
    ensures
        keys_distinct(intern_all(inputs)),
        intern_all(inputs).len() == distinct_count(inputs),
    decreases inputs.len(),
{
    let s = intern_all(inputs);
    if inputs.len() > 0 {
        let prev = inputs.drop_last();
        let ps = intern_all(prev);
        let x = inputs.last();
        lemma_intern_distinct(prev);
        lemma_intern_keys(prev);
        if !has_key(ps, x) {
            assert forall|i: int, j: int|
                0 <= i < s.len() && 0 <= j < s.len() && i != j implies !(
                #[trigger] s[i].same_key(&s[j])) by {
                if i == ps.len() {
                    T::lemma_key_laws(&x, &s[j], &s[j]);
                    assert(!ps[j].same_key(&x));
                } else if j == ps.len() {
                    assert(!ps[i].same_key(&x));
                } else {
                    assert(s[i] == ps[i] && s[j] == ps[j]);
                }
            }
        }
    }
}

/// The values interned from a prefix of the inputs are a prefix of those
/// interned from all of them.
proof fn lemma_intern_prefix<T: PtrRead>(inputs: Seq<T>, m: int)
    requires
        0 <= m <= inputs.len(),
    ensures
        intern_all(inputs.take(m)).len() <= intern_all(inputs).len(),
        forall|p: int|
            0 <= p < intern_all(inputs.take(m)).len() ==> #[trigger] intern_all(inputs)[p]
                == intern_all(inputs.take(m))[p],
    decreases inputs.len(),
{
    if m == inputs.len() {
        assert(inputs.take(m) =~= inputs);
    } else {
        let prev = inputs.drop_last();
        assert(prev.take(m) =~= inputs.take(m));
        lemma_intern_prefix(prev, m);
    }
}

/// The `k`-th insertion returns the position in `intern_all(inputs)` of the
/// stored duplicate of `inputs[k]`; that position is below the count of
/// distinct values before `k` when `inputs[k]` was seen before, and equal
/// to it otherwise, where the stored value is `inputs[k]` itself.
proof fn lemma_id_at<T: PtrRead>(inputs: Seq<T>, k: int)
    requires
        0 <= k < inputs.len(),
    ensures
        0 <= id_at(inputs, k) < intern_all(inputs).len(),
        intern_all(inputs)[id_at(inputs, k)].same_key(&inputs[k]),
        id_at(inputs, k) == key_position(intern_all(inputs), inputs[k]),
        first_seen(inputs, k) ==> id_at(inputs, k) == distinct_count(inputs.take(k)),
        first_seen(inputs, k) ==> intern_all(inputs)[id_at(inputs, k)] == inputs[k],
        !first_seen(inputs, k) ==> id_at(inputs, k) < distinct_count(inputs.take(k)),
{
    let x = inputs[k];
    let before = intern_all(inputs.take(k));
    let after = intern_all(inputs.take(k + 1));
    let all = intern_all(inputs);
    lemma_take_step(inputs, k);
    lemma_intern_keys(inputs.take(k));
    lemma_intern_distinct(inputs.take(k));
    lemma_intern_distinct(inputs.take(k + 1));
    lemma_intern_distinct(inputs);
    lemma_intern_prefix(inputs, k + 1);
    T::lemma_key_laws(&x, &x, &x);
    let p = if has_key(before, x) {
        let q = choose|q: int| 0 <= q < before.len() && #[trigger] before[q].same_key(&x);
        q
    } else {
        before.len() as int
    };
    assert(after[p] == all[p]);
    lemma_position_unique(after, x, p);
    lemma_position_unique(all, x, p);
}

/// Two insertions return the same identifier exactly when their values are
/// duplicates of each other; distinct values get distinct identifiers.
pub proof fn lemma_same_id_iff_same_key<T: PtrRead>(inputs: Seq<T>, k1: int, k2: int)
    requires
        0 <= k1 < inputs.len(),
        0 <= k2 < inputs.len(),
    ensures
        id_at(inputs, k1) == id_at(inputs, k2) <==> inputs[k1].same_key(&inputs[k2]),
{
    let all = intern_all(inputs);
    let (x1, x2) = (inputs[k1], inputs[k2]);
    lemma_id_at(inputs, k1);
    lemma_id_at(inputs, k2);
    lemma_intern_distinct(inputs);
    let p1 = id_at(inputs, k1);
    T::lemma_key_laws(&all[p1], &x1, &x2);
    T::lemma_key_laws(&x1, &all[p1], &x2);
    if x1.same_key(&x2) {
        lemma_position_unique(all, x2, p1);
    }
}

/// Identifiers are handed out densely in order of first appearance: a value
/// seen for the first time gets the number of distinct values before it, a
/// repeated one an identifier below that number; the value exported at a
/// new identifier is the value inserted.
pub proof fn lemma_dense_ids<T: PtrRead>(inputs: Seq<T>, k: int)
    requires
        0 <= k < inputs.len(),
    ensures
        first_seen(inputs, k) ==> id_at(inputs, k) == distinct_count(inputs.take(k)),
        !first_seen(inputs, k) ==> 0 <= id_at(inputs, k) < distinct_count(inputs.take(k)),
        first_seen(inputs, k) ==> intern_all(inputs)[id_at(inputs, k)] == inputs[k],
{
    lemma_id_at(inputs, k);
}

/// After any sequence of insertions the indexer holds exactly as many values
/// as there were distinct values inserted, none a duplicate of another.
pub proof fn lemma_length<T: PtrRead>(inputs: Seq<T>)
    ensures
        intern_all(inputs).len() == distinct_count(inputs),
        keys_distinct(intern_all(inputs)),
{
    lemma_intern_distinct(inputs);
}

/// `n` copies of `v`.
pub open spec fn copies<T>(v: T, n: nat) -> Seq<T> {
    Seq::new(n, |_i: int| v)
}

/// Inserting the same value `k >= 1` times into an indexer holding `s`
/// interns it once: after each of the insertions the indexer holds what one
/// insertion leaves, so each returns the same identifier, and the length
/// grows by one exactly when `s` held no duplicate of the value.
pub proof fn lemma_idempotent<T: PtrRead>(s: Seq<T>, v: T, k: nat)
    requires
        k >= 1,
    ensures
        forall|j: nat| 1 <= j <= k ==> #[trigger] intern_from(s, copies(v, j)) == interned(s, v),
        interned(s, v).len() == s.len() + if has_key(s, v) {
            0int
        } else {
            1int
        },
{
    assert forall|j: nat| 1 <= j <= k implies #[trigger] intern_from(s, copies(v, j)) == interned(
        s,
        v,
    ) by {
        lemma_repeat(s, v, j);
    }
}

/// Inserting `v` `k >= 1` times leaves what inserting it once leaves.
proof fn lemma_repeat<T: PtrRead>(s: Seq<T>, v: T, k: nat)
    requires
        k >= 1,
    ensures
        intern_from(s, copies(v, k)) == interned(s, v),
    decreases k,
{
    let c = copies(v, k);
    T::lemma_key_laws(&v, &v, &v);
    assert(c.last() == v);
    if k == 1 {
        assert(c.drop_last() =~= Seq::<T>::empty());
        assert(intern_from(s, Seq::<T>::empty()) == s);
    } else {
        assert(c.drop_last() =~= copies(v, (k - 1) as nat));
        lemma_repeat(s, v, (k - 1) as nat);
        let once = interned(s, v);
        if !has_key(s, v) {
            assert(once[s.len() as int].same_key(&v));
        }
        assert(has_key(once, v));
        assert(interned(once, v) == once);
    }
}

/// Reading the exported values at the identifiers returned gives back the
/// inserted values: a duplicate of each, and the value itself at its first
/// appearance.
pub proof fn lemma_round_trip<T: PtrRead>(inputs: Seq<T>, k: int)
    requires
        0 <= k < inputs.len(),
    ensures
        0 <= id_at(inputs, k) < intern_all(inputs).len(),
        intern_all(inputs)[id_at(inputs, k)].same_key(&inputs[k]),
        first_seen(inputs, k) ==> intern_all(inputs)[id_at(inputs, k)] == inputs[k],
{
    lemma_id_at(inputs, k);
}

} // verus!
