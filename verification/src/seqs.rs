//! Facts on sequences.

use vstd::prelude::*;

verus! {

/// The numbers `0..n`, as indices.
pub open spec fn indices(n: nat) -> Seq<usize> {
    Seq::new(n, |i: int| i as usize)
}

/// A filter that every element passes changes nothing.
pub proof fn lemma_filter_all<A>(s: Seq<A>, keep: spec_fn(A) -> bool)
    requires
        forall|i: int| 0 <= i < s.len() ==> keep(#[trigger] s[i]),
    ensures
        s.filter(keep) == s,
    decreases s.len(),
{
    reveal(Seq::filter);
    if s.len() > 0 {
        lemma_filter_all(s.drop_last(), keep);
        assert(s =~= s.drop_last().push(s.last()));
    }
}

/// What a filter leaves of a single element.
pub proof fn lemma_filter_one<A>(a: A, keep: spec_fn(A) -> bool)
    ensures
        seq![a].filter(keep) == if keep(a) {
            seq![a]
        } else {
            Seq::<A>::empty()
        },
{
    reveal(Seq::filter);
    assert(seq![a].drop_last() =~= Seq::<A>::empty());
    assert(Seq::<A>::empty().filter(keep) =~= Seq::<A>::empty());
    assert(Seq::<A>::empty().push(a) =~= seq![a]);
}

/// Filtering one element more.
pub proof fn lemma_filter_step<A>(s: Seq<A>, i: int, keep: spec_fn(A) -> bool)
    requires
        0 <= i < s.len(),
    ensures
        s.take(i + 1).filter(keep) == if keep(s[i]) {
            s.take(i).filter(keep).push(s[i])
        } else {
            s.take(i).filter(keep)
        },
{
    reveal(Seq::filter);
    assert(s.take(i + 1).drop_last() =~= s.take(i));
}

/// An element survives the filter exactly if it was there and passes.
pub proof fn lemma_filter_contains<A>(s: Seq<A>, keep: spec_fn(A) -> bool, a: A)
    ensures
        s.filter(keep).contains(a) <==> s.contains(a) && keep(a),
    decreases s.len(),
{
    reveal(Seq::filter);
    if s.len() > 0 {
        let (rest, last) = (s.drop_last(), s.last());
        lemma_filter_contains(rest, keep, a);
        assert(s =~= rest.push(last));
        lemma_push_contains(rest, last);
        lemma_push_contains(rest.filter(keep), last);
    }
}

/// One element more.
pub proof fn lemma_push_contains<A>(s: Seq<A>, a: A)
    ensures
        forall|x: A| #[trigger] s.push(a).contains(x) <==> s.contains(x) || x == a,
{
    let t = s.push(a);
    assert forall|x: A| #[trigger] t.contains(x) <==> s.contains(x) || x == a by {
        if s.contains(x) {
            let p = choose|p: int| 0 <= p < s.len() && s[p] == x;
            assert(t[p] == x);
        }
        if t.contains(x) {
            let p = choose|p: int| 0 <= p < t.len() && t[p] == x;
            if p < s.len() {
                assert(s[p] == x);
            }
        }
        assert(t[s.len() as int] == a);
    }
}

/// One element more, as a set.
pub proof fn lemma_push_to_set<A>(s: Seq<A>, a: A)
    ensures
        s.push(a).to_set() == s.to_set().insert(a),
{
    lemma_push_contains(s, a);
    assert(s.push(a).to_set() =~= s.to_set().insert(a));
}

/// Filtering the indices below `i + 1`.
pub proof fn lemma_indices_step(i: nat, keep: spec_fn(usize) -> bool)
    requires
        i < usize::MAX,
    ensures
        indices(i + 1).filter(keep) == if keep(i as usize) {
            indices(i).filter(keep).push(i as usize)
        } else {
            indices(i).filter(keep)
        },
{
    let s = indices(i + 1);
    lemma_filter_step(s, i as int, keep);
    assert(s.take(i as int) =~= indices(i));
    assert(s.take((i + 1) as int) =~= s);
}

/// What is left of no indices.
pub proof fn lemma_indices_none(keep: spec_fn(usize) -> bool)
    ensures
        indices(0).filter(keep) == Seq::<usize>::empty(),
{
    reveal(Seq::filter);
    assert(indices(0).filter(keep) =~= Seq::<usize>::empty());
}

/// An index survives the filter exactly if it is one and passes.
pub proof fn lemma_indices_contain(n: nat, keep: spec_fn(usize) -> bool)
    requires
        n <= usize::MAX,
    ensures
        forall|i: usize| #[trigger] indices(n).filter(keep).contains(i) <==> i < n && keep(i),
    decreases n,
{
    if n == 0 {
        lemma_indices_none(keep);
    } else {
        let m = (n - 1) as nat;
        lemma_indices_contain(m, keep);
        lemma_indices_step(m, keep);
        let (a, b) = (indices(m).filter(keep), indices(n).filter(keep));
        assert forall|i: usize| #[trigger] b.contains(i) <==> i < n && keep(i) by {
            lemma_push_contains(a, m as usize);
        }
    }
}

} // verus!
