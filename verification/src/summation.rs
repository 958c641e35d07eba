//! A spec-level fold that adds one integer contribution per element of a
//! sequence, together with the lemmas that make every such tally a function
//! of the sequence's multiset alone. All three aggregation reducers state
//! their results through this fold, so order-independence is proved once,
//! here, and inherited by each of them.

use vstd::prelude::*;

verus! {

/// The total contribution of the elements of `s` under `f`, front to back.
pub open spec fn seq_sum<A>(s: Seq<A>, f: spec_fn(A) -> int) -> int
    decreases s.len(),
{
    if s.len() == 0 {
        0
    } else {
        seq_sum(s.drop_last(), f) + f(s.last())
    }
}

/// Appending one element adds exactly that element's contribution.
pub proof fn lemma_seq_sum_push<A>(s: Seq<A>, f: spec_fn(A) -> int, a: A)
    ensures
        seq_sum(s.push(a), f) == seq_sum(s, f) + f(a),
{
    assert(s.push(a).drop_last() =~= s);
    assert(s.push(a).last() == a);
}

/// Removing the element at `i` subtracts exactly that element's contribution.
pub proof fn lemma_seq_sum_remove<A>(s: Seq<A>, f: spec_fn(A) -> int, i: int)
    requires
        0 <= i < s.len(),
    ensures
        seq_sum(s, f) == seq_sum(s.remove(i), f) + f(s[i]),
    decreases s.len(),
{
    if i == s.len() - 1 {
        assert(s.remove(i) =~= s.drop_last());
    } else {
        lemma_seq_sum_remove(s.drop_last(), f, i);
        assert(s.remove(i).drop_last() =~= s.drop_last().remove(i));
        assert(s.remove(i).last() == s.last());
        assert(seq_sum(s.remove(i), f) == seq_sum(s.remove(i).drop_last(), f) + f(
            s.remove(i).last(),
        ));
    }
}

/// Two sequences holding the same elements the same number of times tally
/// to the same total: `seq_sum` is invariant under permutation.
pub proof fn lemma_seq_sum_permutation<A>(s1: Seq<A>, s2: Seq<A>, f: spec_fn(A) -> int)
    requires
        s1.to_multiset() == s2.to_multiset(),
    ensures
        seq_sum(s1, f) == seq_sum(s2, f),
    decreases s2.len(),
{
    broadcast use vstd::seq_lib::group_to_multiset_ensures;

    if s2.len() == 0 {
        assert(s1.to_multiset().len() == 0);
        assert(s1.len() == 0);
    } else {
        let a = s2.last();
        let s2p = s2.drop_last();
        assert(s2 =~= s2p.push(a));
        assert(s2.to_multiset() =~= s2p.to_multiset().insert(a));
        assert(s1.to_multiset().count(a) > 0);
        assert(s1.contains(a));
        let i = choose|i: int| 0 <= i < s1.len() && s1[i] == a;
        assert(s1.remove(i).to_multiset() =~= s1.to_multiset().remove(a));
        assert(s1.remove(i).to_multiset() =~= s2p.to_multiset());
        lemma_seq_sum_permutation(s1.remove(i), s2p, f);
        lemma_seq_sum_remove(s1, f, i);
    }
}

/// A tally whose per-element contributions all lie in `[0, c]` lies in
/// `[0, c * s.len()]`.
pub proof fn lemma_seq_sum_bound<A>(s: Seq<A>, f: spec_fn(A) -> int, c: int)
    requires
        forall|a: A| 0 <= #[trigger] f(a) <= c,
    ensures
        0 <= seq_sum(s, f) <= c * s.len(),
    decreases s.len(),
{
    if s.len() == 0 {
    } else {
        lemma_seq_sum_bound(s.drop_last(), f, c);
        assert(c * (s.len() - 1) + c == c * s.len()) by (nonlinear_arith);
    }
}

/// A tally is bounded by `c` times a second tally that dominates it
/// element-wise: if each `f(a)` lies in `[0, c * g(a)]`, the totals do too.
pub proof fn lemma_seq_sum_dominated<A>(s: Seq<A>, f: spec_fn(A) -> int, g: spec_fn(A) -> int, c: int)
    requires
        forall|a: A| 0 <= #[trigger] f(a) && f(a) <= c * g(a),
        forall|a: A| #[trigger] g(a) >= 0,
    ensures
        0 <= seq_sum(s, f) <= c * seq_sum(s, g),
    decreases s.len(),
{
    if s.len() == 0 {
    } else {
        lemma_seq_sum_dominated(s.drop_last(), f, g, c);
        let a = s.last();
        assert(c * seq_sum(s.drop_last(), g) + c * g(a) == c * (seq_sum(s.drop_last(), g) + g(
            a,
        ))) by (nonlinear_arith);
    }
}

} // verus!
