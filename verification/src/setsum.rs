//! Sums of a weight over the elements of a finite set.
use vstd::prelude::*;

verus! {

/// The sum of `w` over the elements of `s`.
pub open spec fn set_sum<K>(s: Set<K>, w: spec_fn(K) -> int) -> int {
    s.fold(0int, |acc: int, k: K| acc + w(k))
}

proof fn lemma_add_fold_commutative<K>(w: spec_fn(K) -> int)
    ensures
        vstd::set::fold::is_fun_commutative(|acc: int, k: K| acc + w(k)),
{
}

/// Adding an element adds its weight.
pub proof fn lemma_set_sum_insert<K>(s: Set<K>, w: spec_fn(K) -> int, a: K)
    requires
        s.finite(),
        !s.contains(a),
    ensures
        set_sum(s.insert(a), w) == set_sum(s, w) + w(a),
{
    lemma_add_fold_commutative(w);
    vstd::set::fold::lemma_fold_insert(s, 0int, |acc: int, k: K| acc + w(k), a);
}

/// The sum over the empty set is zero.
pub proof fn lemma_set_sum_empty<K>(w: spec_fn(K) -> int)
    ensures
        set_sum(Set::<K>::empty(), w) == 0,
{
    vstd::set::fold::lemma_fold_empty(0int, |acc: int, k: K| acc + w(k));
}

/// Taking an element out removes its weight.
pub proof fn lemma_set_sum_remove<K>(s: Set<K>, w: spec_fn(K) -> int, a: K)
    requires
        s.finite(),
        s.contains(a),
    ensures
        set_sum(s, w) == set_sum(s.remove(a), w) + w(a),
{
    lemma_set_sum_insert(s.remove(a), w, a);
    assert(s.remove(a).insert(a) =~= s);
}

/// Sums of weights that agree on the set are equal.
pub proof fn lemma_set_sum_congruent<K>(s: Set<K>, w1: spec_fn(K) -> int, w2: spec_fn(K) -> int)
    requires
        s.finite(),
        forall|k: K| s.contains(k) ==> #[trigger] w1(k) == w2(k),
    ensures
        set_sum(s, w1) == set_sum(s, w2),
    decreases s.len(),
{
    if s.len() == 0 {
        assert(s =~= Set::<K>::empty());
        lemma_set_sum_empty(w1);
        lemma_set_sum_empty(w2);
    } else {
        let a = s.choose();
        assert(s.contains(a));
        lemma_set_sum_congruent(s.remove(a), w1, w2);
        lemma_set_sum_remove(s, w1, a);
        lemma_set_sum_remove(s, w2, a);
    }
}

} // verus!
