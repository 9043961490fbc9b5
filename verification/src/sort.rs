//! The canonical order of devices.

use vstd::prelude::*;
use vstd::utf8::encode_utf8;
use crate::seqs::lemma_filter_one;
use crate::text::{
    lemma_bytes_before_irreflexive, lemma_bytes_before_total, lemma_bytes_before_transitive,
    lemma_same_bytes_same_text, text_before, text_precedes,
};

verus! {

/// The place of a device in the canonical order: its identity, then its model.
pub type Rank = (Seq<char>, Seq<char>);

/// Identities are ordered as text; the model breaks a tie.
pub open spec fn rank_before(a: Rank, b: Rank) -> bool {
    text_precedes(a.0, b.0) || (a.0 == b.0 && text_precedes(a.1, b.1))
}

/// The meaning of something that has a place in the canonical order.
pub trait HasRank {
    spec fn rank(&self) -> Rank;
}

/// Something that has a place in the canonical order.
pub trait Ranked<R: HasRank>: DeepView<V = R> + Sized {
    /// Whether `self` comes strictly before `other`.
    fn before(&self, other: &Self) -> (r: bool)
        ensures
            r == rank_before(self.deep_view().rank(), other.deep_view().rank()),
    ;
}

/// No item comes before one that stands earlier.
pub open spec fn is_sorted<T: HasRank>(s: Seq<T>) -> bool {
    forall|i: int, j: int| 0 <= i < j < s.len() ==> !rank_before((#[trigger] s[j]).rank(), (#[trigger] s[i]).rank())
}

/// The items of one rank, in their order.
pub open spec fn of_rank<T: HasRank>(s: Seq<T>, rank: Rank) -> Seq<T> {
    s.filter(has_rank(rank))
}

pub open spec fn has_rank<T: HasRank>(rank: Rank) -> spec_fn(T) -> bool {
    |t: T| t.rank() == rank
}

/// `out` is `input` brought into the canonical order, items of one rank kept in
/// the order they had.
pub open spec fn is_stable_sort<T: HasRank>(input: Seq<T>, out: Seq<T>) -> bool {
    &&& is_sorted(out)
    &&& out.to_multiset() == input.to_multiset()
    &&& forall|rank: Rank| #[trigger] of_rank(out, rank) == of_rank(input, rank)
}

pub proof fn lemma_rank_irreflexive(a: Rank)
    ensures
        !rank_before(a, a),
{
    lemma_bytes_before_irreflexive(encode_utf8(a.0));
    lemma_bytes_before_irreflexive(encode_utf8(a.1));
}

pub proof fn lemma_rank_transitive(a: Rank, b: Rank, c: Rank)
    requires
        rank_before(a, b),
        rank_before(b, c),
    ensures
        rank_before(a, c),
{
    if text_precedes(a.0, b.0) && text_precedes(b.0, c.0) {
        lemma_bytes_before_transitive(encode_utf8(a.0), encode_utf8(b.0), encode_utf8(c.0));
    } else if text_precedes(a.1, b.1) && text_precedes(b.1, c.1) {
        lemma_bytes_before_transitive(encode_utf8(a.1), encode_utf8(b.1), encode_utf8(c.1));
    }
}

pub proof fn lemma_rank_total(a: Rank, b: Rank)
    ensures
        a == b || rank_before(a, b) || rank_before(b, a),
{
    lemma_bytes_before_total(encode_utf8(a.0), encode_utf8(b.0));
    lemma_bytes_before_total(encode_utf8(a.1), encode_utf8(b.1));
    if encode_utf8(a.0) == encode_utf8(b.0) {
        lemma_same_bytes_same_text(a.0, b.0);
    }
    if encode_utf8(a.1) == encode_utf8(b.1) {
        lemma_same_bytes_same_text(a.1, b.1);
    }
}

/// What is not after `b`, and so not after `c` where `b` is before `c`, is
/// before `c`.
proof fn lemma_rank_chain(a: Rank, b: Rank, c: Rank)
    requires
        !rank_before(b, a),
        rank_before(b, c),
    ensures
        rank_before(a, c),
{
    lemma_rank_total(a, b);
    if a != b {
        lemma_rank_transitive(a, b, c);
    }
}

/// Whether rank `(a_id, a_model)` comes strictly before `(b_id, b_model)`.
pub fn rank_is_before(a_id: &str, a_model: &str, b_id: &str, b_model: &str) -> (r: bool)
    ensures
        r == rank_before((a_id@, a_model@), (b_id@, b_model@)),
{
    if text_before(a_id, b_id) {
        true
    } else {
        crate::text::text_eq(a_id, b_id) && text_before(a_model, b_model)
    }
}

proof fn lemma_filter_none<A>(s: Seq<A>, keep: spec_fn(A) -> bool)
    requires
        forall|i: int| 0 <= i < s.len() ==> !keep(#[trigger] s[i]),
    ensures
        s.filter(keep) == Seq::<A>::empty(),
    decreases s.len(),
{
    reveal(Seq::filter);
    if s.len() > 0 {
        lemma_filter_none(s.drop_last(), keep);
    }
}

proof fn lemma_insert_of_rank<T: HasRank>(out: Seq<T>, x: T, p: int, rank: Rank)
    requires
        0 <= p <= out.len(),
        forall|i: int| 0 <= i < p ==> rank_before((#[trigger] out[i]).rank(), x.rank()),
    ensures
        of_rank(out.insert(p, x), rank) == of_rank(seq![x] + out, rank),
{
    let keep = has_rank::<T>(rank);
    let (a, b) = (out.subrange(0, p), out.subrange(p, out.len() as int));
    assert(out =~= a + b);
    assert(out.insert(p, x) =~= a + seq![x] + b);
    Seq::filter_distributes_over_add(a + seq![x], b, keep);
    Seq::filter_distributes_over_add(a, seq![x], keep);
    Seq::filter_distributes_over_add(seq![x], out, keep);
    Seq::filter_distributes_over_add(a, b, keep);
    lemma_filter_one(x, keep);
    let none = Seq::<T>::empty();
    assert(of_rank(out.insert(p, x), rank) =~= a.filter(keep) + seq![x].filter(keep) + b.filter(keep));
    assert(of_rank(seq![x] + out, rank) =~= seq![x].filter(keep) + (a.filter(keep) + b.filter(keep)));
    if keep(x) {
        assert forall|i: int| 0 <= i < a.len() implies !keep(#[trigger] a[i]) by {
            assert(rank_before(out[i].rank(), x.rank()));
            lemma_rank_irreflexive(rank);
        }
        lemma_filter_none(a, keep);
        assert(none + seq![x] + b.filter(keep) =~= seq![x] + (none + b.filter(keep)));
    } else {
        assert(a.filter(keep) + none + b.filter(keep) =~= none + (a.filter(keep) + b.filter(keep)));
    }
}

/// Brings a list into the canonical order.
pub fn sort_ranked<R: HasRank, T: Ranked<R>>(items: Vec<T>) -> (r: Vec<T>)
    ensures
        is_stable_sort(items.deep_view(), r.deep_view()),
{
    let ghost input = items.deep_view();
    let mut rest = items;
    let mut out: Vec<T> = Vec::new();
    assert(input.subrange(input.len() as int, input.len() as int) =~= out.deep_view());
    assert(rest.deep_view() =~= input.take(rest@.len() as int));
    while rest.len() > 0
        invariant
            rest@.len() <= input.len(),
            rest.deep_view() == input.take(rest@.len() as int),
            is_stable_sort(input.subrange(rest@.len() as int, input.len() as int), out.deep_view()),
        decreases rest@.len(),
    {
        let ghost n = rest@.len() - 1;
        let ghost all = rest.deep_view();
        let x = rest.pop().unwrap();
        let ghost xv = x.deep_view();
        assert(all[n] == xv);
        let mut p: usize = 0;
        while p < out.len() && out[p].before(&x)
            invariant
                p <= out@.len(),
                xv == x.deep_view(),
                forall|i: int| 0 <= i < p ==> rank_before((#[trigger] out.deep_view()[i]).rank(), xv.rank()),
            decreases out@.len() - p,
        {
            p += 1;
        }
        let ghost prev = out.deep_view();
        let ghost done = input.subrange(n + 1, input.len() as int);
        let ghost more = input.subrange(n, input.len() as int);
        assert(p < prev.len() ==> !rank_before(prev[p as int].rank(), xv.rank()));
        out.insert(p, x);
        proof {
            let now = out.deep_view();
            assert(rest.deep_view() =~= input.take(n));
            assert(more =~= seq![xv] + done);
            assert(now =~= prev.insert(p as int, xv));
            assert forall|i: int, j: int| 0 <= i < j < now.len() implies !rank_before(
                (#[trigger] now[j]).rank(),
                (#[trigger] now[i]).rank(),
            ) by {
                if i == p {
                    assert(now[j] == prev[j - 1]);
                    if rank_before(prev[j - 1].rank(), xv.rank()) && j - 1 > p {
                        assert(!rank_before(prev[j - 1].rank(), prev[p as int].rank()));
                        lemma_rank_chain(prev[p as int].rank(), prev[j - 1].rank(), xv.rank());
                    }
                } else if j == p {
                    assert(now[i] == prev[i]);
                    if rank_before(xv.rank(), prev[i].rank()) {
                        lemma_rank_transitive(xv.rank(), prev[i].rank(), xv.rank());
                        lemma_rank_irreflexive(xv.rank());
                    }
                } else {
                    let a = if i < p { i } else { i - 1 };
                    let b = if j < p { j } else { j - 1 };
                    assert(now[i] == prev[a] && now[j] == prev[b]);
                    assert(!rank_before(prev[b].rank(), prev[a].rank()));
                }
            }
            broadcast use vstd::seq_lib::group_to_multiset_ensures;

            assert((seq![xv] + done).to_multiset() =~= done.to_multiset().insert(xv)) by {
                assert(done.insert(0, xv) =~= seq![xv] + done);
            }
            assert forall|rank: Rank| #[trigger] of_rank(now, rank) == of_rank(more, rank) by {
                lemma_insert_of_rank(prev, xv, p as int, rank);
                let keep = has_rank::<R>(rank);
                Seq::filter_distributes_over_add(seq![xv], prev, keep);
                Seq::filter_distributes_over_add(seq![xv], done, keep);
                assert(of_rank(prev, rank) == of_rank(done, rank));
            }
        }
    }
    assert(input.subrange(0, input.len() as int) =~= input);
    out
}

/// No two items share a rank.
pub open spec fn ranks_differ<T: HasRank>(s: Seq<T>) -> bool {
    forall|i: int, j: int| 0 <= i < j < s.len() ==> (#[trigger] s[i]).rank() != (#[trigger] s[j]).rank()
}

/// The canonical order does not depend on the order of enumeration: the same
/// items, no two of one rank, end up in the same list.
pub proof fn law_order_ignores_enumeration<T: HasRank>(first: Seq<T>, second: Seq<T>, a: Seq<T>, b: Seq<T>)
    requires
        first.to_multiset() == second.to_multiset(),
        ranks_differ(first),
        is_stable_sort(first, a),
        is_stable_sort(second, b),
    ensures
        a == b,
{
    lemma_sorted_ranks_differ(first, a);
    lemma_sorted_lists_agree(a, b);
}

/// A rearrangement of items of different ranks holds items of different ranks.
pub proof fn lemma_sorted_ranks_differ<T: HasRank>(first: Seq<T>, a: Seq<T>)
    requires
        ranks_differ(first),
        is_stable_sort(first, a),
    ensures
        ranks_differ(a),
{
    assert forall|i: int, j: int| 0 <= i < j < a.len() implies (#[trigger] a[i]).rank() != (#[trigger] a[j]).rank() by {
        if a[i].rank() == a[j].rank() {
            let rank = a[i].rank();
            let keep = has_rank::<T>(rank);
            let (u, v) = (a.subrange(0, j), a.subrange(j, a.len() as int));
            assert(a =~= u + v);
            Seq::filter_distributes_over_add(u, v, keep);
            assert(keep(u[i]) && keep(v[0]));
            u.lemma_filter_contains(keep, i);
            v.lemma_filter_contains(keep, 0);
            assert(of_rank(a, rank).len() >= 2);
            assert(of_rank(a, rank) == of_rank(first, rank));
            lemma_at_most_one(first, rank);
        }
    }
}

proof fn lemma_at_most_one<T: HasRank>(s: Seq<T>, rank: Rank)
    requires
        ranks_differ(s),
    ensures
        of_rank(s, rank).len() <= 1,
    decreases s.len(),
{
    reveal(Seq::filter);
    let keep = has_rank::<T>(rank);
    if s.len() > 0 {
        let init = s.drop_last();
        assert forall|i: int, j: int| 0 <= i < j < init.len() implies (#[trigger] init[i]).rank() != (
        #[trigger] init[j]).rank() by {
            assert(s[i].rank() != s[j].rank());
        }
        lemma_at_most_one(init, rank);
        if keep(s.last()) {
            assert forall|i: int| 0 <= i < init.len() implies !keep(#[trigger] init[i]) by {
                assert(s[i].rank() != s[s.len() - 1].rank());
            }
            lemma_filter_none(init, keep);
        }
        assert(of_rank(s, rank) == s.filter(keep));
        assert(of_rank(init, rank) == init.filter(keep));
    }
}

/// Two sorted lists of the same items, no two of one rank, are the same list.
proof fn lemma_sorted_lists_agree<T: HasRank>(a: Seq<T>, b: Seq<T>)
    requires
        is_sorted(a),
        is_sorted(b),
        ranks_differ(a),
        a.to_multiset() == b.to_multiset(),
    ensures
        a == b,
    decreases a.len(),
{
    broadcast use vstd::seq_lib::group_to_multiset_ensures;

    assert(a.to_multiset().len() == a.len() && b.to_multiset().len() == b.len());
    if a.len() == 0 {
        assert(a =~= b);
    } else {
        let (x, y) = (a.last(), b.last());
        assert(a[a.len() - 1] == x && b[b.len() - 1] == y);
        assert(a.contains(x) && b.contains(y));
        assert(a.to_multiset().count(x) > 0 && b.to_multiset().count(y) > 0);
        assert(b.contains(x) && a.contains(y));
        let i = choose|i: int| 0 <= i < b.len() && b[i] == x;
        let j = choose|j: int| 0 <= j < a.len() && a[j] == y;
        lemma_rank_irreflexive(x.rank());
        lemma_rank_irreflexive(y.rank());
        assert(!rank_before(y.rank(), x.rank())) by {
            if i < b.len() - 1 {
                assert(!rank_before(b[b.len() - 1].rank(), b[i].rank()));
            }
        }
        assert(!rank_before(x.rank(), y.rank())) by {
            if j < a.len() - 1 {
                assert(!rank_before(a[a.len() - 1].rank(), a[j].rank()));
            }
        }
        lemma_rank_total(x.rank(), y.rank());
        if j < a.len() - 1 {
            assert(a[j].rank() != a[a.len() - 1].rank());
        }
        assert(x == y);
        let (p, q) = (a.drop_last(), b.drop_last());
        assert(p =~= a.remove(a.len() - 1) && q =~= b.remove(b.len() - 1));
        assert(p.to_multiset() == q.to_multiset());
        assert forall|i: int, j: int| 0 <= i < j < p.len() implies !rank_before(
            (#[trigger] p[j]).rank(),
            (#[trigger] p[i]).rank(),
        ) by {
            assert(!rank_before(a[j].rank(), a[i].rank()));
        }
        assert forall|i: int, j: int| 0 <= i < j < q.len() implies !rank_before(
            (#[trigger] q[j]).rank(),
            (#[trigger] q[i]).rank(),
        ) by {
            assert(!rank_before(b[j].rank(), b[i].rank()));
        }
        assert forall|i: int, j: int| 0 <= i < j < p.len() implies (#[trigger] p[i]).rank() != (
        #[trigger] p[j]).rank() by {
            assert(a[i].rank() != a[j].rank());
        }
        lemma_sorted_lists_agree(p, q);
        assert(a =~= p.push(x) && b =~= q.push(y));
    }
}

/// Sorting only rearranges: nothing is lost, added or changed.
pub proof fn law_sorting_only_rearranges<T: HasRank>(input: Seq<T>, out: Seq<T>)
    requires
        is_stable_sort(input, out),
    ensures
        out.len() == input.len(),
        forall|x: T| #[trigger] out.contains(x) <==> input.contains(x),
{
    broadcast use vstd::seq_lib::group_to_multiset_ensures;

    assert(input.to_multiset().len() == out.to_multiset().len());
    assert forall|x: T| #[trigger] out.contains(x) <==> input.contains(x) by {
        assert(out.contains(x) <==> out.to_multiset().count(x) > 0);
        assert(input.contains(x) <==> input.to_multiset().count(x) > 0);
    }
}

/// The identity comes first, the model only breaks a tie, and what stands later
/// never comes before what stands earlier.
pub proof fn law_sorted_by_identity_then_model<T: HasRank>(input: Seq<T>, out: Seq<T>, i: int, j: int)
    requires
        is_stable_sort(input, out),
        0 <= i < j < out.len(),
    ensures
        !text_precedes(out[j].rank().0, out[i].rank().0),
        out[i].rank().0 == out[j].rank().0 ==> !text_precedes(out[j].rank().1, out[i].rank().1),
{
    assert(!rank_before(out[j].rank(), out[i].rank()));
}

/// Items of one rank keep their order.
pub proof fn law_equal_items_keep_their_order<T: HasRank>(input: Seq<T>, out: Seq<T>, rank: Rank)
    requires
        is_stable_sort(input, out),
        forall|i: int| 0 <= i < input.len() ==> (#[trigger] input[i]).rank() == rank,
    ensures
        out == input,
{
    let keep = has_rank::<T>(rank);
    law_sorting_only_rearranges(input, out);
    assert forall|i: int| 0 <= i < out.len() implies keep(#[trigger] out[i]) by {
        assert(out.contains(out[i]));
        let k = choose|k: int| 0 <= k < input.len() && input[k] == out[i];
        assert(input[k].rank() == rank);
    }
    crate::seqs::lemma_filter_all(input, keep);
    crate::seqs::lemma_filter_all(out, keep);
    assert(of_rank(out, rank) == of_rank(input, rank));
}

} // verus!
