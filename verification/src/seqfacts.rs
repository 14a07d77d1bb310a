//! Small facts about sequences that the collector loops and the
//! determinism proofs lean on.

use vstd::prelude::*;
use vstd::multiset::Multiset;

verus! {

/// Filtering a sequence extended by one element keeps the old result and
/// appends the element exactly when it passes.
pub proof fn lemma_filter_push<A>(s: Seq<A>, x: A, p: spec_fn(A) -> bool)
    ensures
        s.push(x).filter(p) == if p(x) {
            s.filter(p).push(x)
        } else {
            s.filter(p)
        },
{
    reveal(Seq::filter);
    assert(s.push(x).drop_last() =~= s);
    assert(s.push(x).last() == x);
}

/// Mapping over a sequence extended by one element appends the image of
/// that element.
pub proof fn lemma_map_values_push<A, B>(s: Seq<A>, x: A, f: spec_fn(A) -> B)
    ensures
        s.push(x).map_values(f) == s.map_values(f).push(f(x)),
{
    assert(s.push(x).map_values(f) =~= s.map_values(f).push(f(x)));
}

/// Filter-mapping a sequence extended by one element appends the image of
/// that element exactly when there is one.
pub proof fn lemma_filter_map_push<A, B>(s: Seq<A>, x: A, f: spec_fn(A) -> Option<B>)
    ensures
        s.push(x).filter_map(f) == if f(x) is Some {
            s.filter_map(f).push(f(x)->Some_0)
        } else {
            s.filter_map(f)
        },
{
    assert(s.push(x).drop_last() =~= s);
    assert(s.push(x).last() == x);
    if f(x) is Some {
        assert(s.filter_map(f) + seq![f(x)->Some_0] =~= s.filter_map(f).push(f(x)->Some_0));
    }
}

/// A value appears in a filter-mapped sequence exactly when some element
/// of the original maps to it.
pub proof fn lemma_filter_map_contains<A, B>(s: Seq<A>, f: spec_fn(A) -> Option<B>, y: B)
    ensures
        s.filter_map(f).contains(y) <==> exists|i: int|
            0 <= i < s.len() && f(#[trigger] s[i]) == Some(y),
    decreases s.len(),
{
    if s.len() > 0 {
        let rest = s.drop_last();
        lemma_filter_map_contains(rest, f, y);
        assert(forall|i: int| 0 <= i < rest.len() ==> rest[i] == s[i]);
        assert(s.last() == s[s.len() - 1]);
        if f(s.last()) is Some {
            let fs = rest.filter_map(f);
            assert(s.filter_map(f) == fs + seq![f(s.last())->Some_0]);
            assert(forall|j: int| 0 <= j < fs.len() ==> s.filter_map(f)[j] == fs[j]);
            assert(s.filter_map(f).last() == f(s.last())->Some_0);
            if s.filter_map(f).contains(y) {
                let j = choose|j: int|
                    0 <= j < s.filter_map(f).len() && s.filter_map(f)[j] == y;
                if j < fs.len() {
                    assert(fs.contains(y));
                } else {
                    assert(f(s[s.len() - 1]) == Some(y));
                }
            }
            if exists|i: int| 0 <= i < s.len() && f(#[trigger] s[i]) == Some(y) {
                let i = choose|i: int| 0 <= i < s.len() && f(#[trigger] s[i]) == Some(y);
                if i < s.len() - 1 {
                    assert(fs.contains(y));
                    let j = choose|j: int| 0 <= j < fs.len() && fs[j] == y;
                    assert(s.filter_map(f)[j] == y);
                } else {
                    assert(s.filter_map(f).last() == y);
                }
            }
        } else {
            if exists|i: int| 0 <= i < s.len() && f(#[trigger] s[i]) == Some(y) {
                let i = choose|i: int| 0 <= i < s.len() && f(#[trigger] s[i]) == Some(y);
                assert(i < s.len() - 1);
            }
        }
    }
}

/// The sum of two concatenated sample sequences splits.
pub proof fn lemma_sum_distributes(a: Seq<u64>, b: Seq<u64>)
    ensures
        crate::stats::sum_u64(a + b) == crate::stats::sum_u64(a) + crate::stats::sum_u64(b),
    decreases b.len(),
{
    if b.len() == 0 {
        assert(a + b =~= a);
    } else {
        lemma_sum_distributes(a, b.drop_last());
        assert((a + b).drop_last() =~= a + b.drop_last());
        assert((a + b).last() == b.last());
    }
}

/// Sequences with the same elements (as a multiset) have the same sum.
pub proof fn lemma_sum_multiset(s1: Seq<u64>, s2: Seq<u64>)
    requires
        s1.to_multiset() == s2.to_multiset(),
    ensures
        crate::stats::sum_u64(s1) == crate::stats::sum_u64(s2),
    decreases s1.len(),
{
    broadcast use vstd::seq_lib::group_to_multiset_ensures;

    s1.to_multiset_ensures();
    s2.to_multiset_ensures();
    if s1.len() == 0 {
        assert(s2.len() == 0);
    } else {
        let x = s1.last();
        assert(s1.contains(x));
        assert(s1.to_multiset().count(x) > 0);
        assert(s2.contains(x));
        let i = choose|i: int| 0 <= i < s2.len() && s2[i] == x;
        let a = s2.subrange(0, i);
        let b = s2.subrange(i + 1, s2.len() as int);
        assert(s2 =~= a + seq![x] + b);
        assert(s2.remove(i) =~= a + b);
        assert(s1.remove(s1.len() - 1) =~= s1.drop_last());
        assert(s1.drop_last().to_multiset() == s1.to_multiset().remove(x));
        assert(s2.remove(i).to_multiset() == s2.to_multiset().remove(x));
        lemma_sum_multiset(s1.drop_last(), s2.remove(i));
        lemma_sum_distributes(a + seq![x], b);
        lemma_sum_distributes(a, seq![x]);
        lemma_sum_distributes(a, b);
        assert(seq![x].drop_last() =~= Seq::<u64>::empty());
        assert(crate::stats::sum_u64(Seq::<u64>::empty()) == 0);
        assert(crate::stats::sum_u64(seq![x]) == x);
        assert(crate::stats::sum_u64(s1) == crate::stats::sum_u64(s1.drop_last()) + x);
        assert(crate::stats::sum_u64(s2) == crate::stats::sum_u64(a) + x
            + crate::stats::sum_u64(b));
    }
}

proof fn lemma_filter_single<A>(x: A, p: spec_fn(A) -> bool)
    ensures
        seq![x].filter(p) == if p(x) {
            seq![x]
        } else {
            Seq::<A>::empty()
        },
        Seq::<A>::empty().filter(p) == Seq::<A>::empty(),
{
    reveal(Seq::filter);
    lemma_filter_push(Seq::<A>::empty(), x, p);
    assert(Seq::<A>::empty().push(x) =~= seq![x]);
    if p(x) {
        assert(Seq::<A>::empty().filter(p).push(x) =~= seq![x]);
    }
}

/// Filtering respects multiset equality: shuffled inputs filter to
/// shuffled outputs.
#[verifier::rlimit(60)]
pub proof fn lemma_filter_multiset<A>(s1: Seq<A>, s2: Seq<A>, p: spec_fn(A) -> bool)
    requires
        s1.to_multiset() == s2.to_multiset(),
    ensures
        s1.filter(p).to_multiset() == s2.filter(p).to_multiset(),
    decreases s1.len(),
{
    broadcast use vstd::seq_lib::group_to_multiset_ensures;
    broadcast use vstd::multiset::group_multiset_axioms;
    broadcast use Seq::filter_distributes_over_add;

    s1.to_multiset_ensures();
    s2.to_multiset_ensures();
    if s1.len() == 0 {
        assert(s2.len() == 0);
    } else {
        let x = s1.last();
        assert(s1.contains(x));
        assert(s1.to_multiset().count(x) > 0);
        assert(s2.contains(x));
        let i = choose|i: int| 0 <= i < s2.len() && s2[i] == x;
        let a = s2.subrange(0, i);
        let b = s2.subrange(i + 1, s2.len() as int);
        assert(s2 =~= (a + seq![x]) + b);
        assert(s2.remove(i) =~= a + b);
        assert(s1.remove(s1.len() - 1) =~= s1.drop_last());
        assert(s1.drop_last().to_multiset() == s1.to_multiset().remove(x));
        assert(s2.remove(i).to_multiset() == s2.to_multiset().remove(x));
        lemma_filter_multiset(s1.drop_last(), s2.remove(i), p);
        lemma_filter_push(s1.drop_last(), x, p);
        lemma_filter_single(x, p);
        assert(s1.drop_last().push(x) =~= s1);
        assert(s2.filter(p) == (a.filter(p) + seq![x].filter(p)) + b.filter(p));
        assert((a + b).filter(p) == a.filter(p) + b.filter(p));
        vstd::seq_lib::lemma_multiset_commutative(a.filter(p) + seq![x].filter(p), b.filter(p));
        vstd::seq_lib::lemma_multiset_commutative(a.filter(p), seq![x].filter(p));
        vstd::seq_lib::lemma_multiset_commutative(a.filter(p), b.filter(p));
        if p(x) {
            assert(s1.filter(p) == s1.drop_last().filter(p).push(x));
            assert(s1.filter(p).to_multiset() =~= s1.drop_last().filter(p).to_multiset().insert(
                x,
            ));
            assert(seq![x].to_multiset() =~= Multiset::<A>::empty().insert(x)) by {
                assert(seq![x] =~= Seq::<A>::empty().push(x));
            }
            assert(s2.filter(p).to_multiset() =~= s2.remove(i).filter(p).to_multiset().insert(
                x,
            ));
        } else {
            assert(s1.filter(p) == s1.drop_last().filter(p));
            assert(s2.filter(p).to_multiset() =~= s2.remove(i).filter(p).to_multiset());
        }
    }
}

/// Mapping respects multiset equality: shuffled inputs map to shuffled
/// outputs.
pub proof fn lemma_map_values_multiset<A, B>(s1: Seq<A>, s2: Seq<A>, f: spec_fn(A) -> B)
    requires
        s1.to_multiset() == s2.to_multiset(),
    ensures
        s1.map_values(f).to_multiset() == s2.map_values(f).to_multiset(),
    decreases s1.len(),
{
    broadcast use vstd::seq_lib::group_to_multiset_ensures;
    broadcast use vstd::multiset::group_multiset_axioms;

    s1.to_multiset_ensures();
    s2.to_multiset_ensures();
    if s1.len() == 0 {
        assert(s2.len() == 0);
        assert(s1.map_values(f) =~= s2.map_values(f));
    } else {
        let x = s1.last();
        assert(s1.contains(x));
        assert(s1.to_multiset().count(x) > 0);
        assert(s2.contains(x));
        let i = choose|i: int| 0 <= i < s2.len() && s2[i] == x;
        let a = s2.subrange(0, i);
        let b = s2.subrange(i + 1, s2.len() as int);
        assert(s2 =~= (a + seq![x]) + b);
        assert(s2.remove(i) =~= a + b);
        assert(s1.remove(s1.len() - 1) =~= s1.drop_last());
        assert(s1.drop_last().to_multiset() == s1.to_multiset().remove(x));
        assert(s2.remove(i).to_multiset() == s2.to_multiset().remove(x));
        lemma_map_values_multiset(s1.drop_last(), s2.remove(i), f);
        lemma_map_values_push(s1.drop_last(), x, f);
        assert(s1.drop_last().push(x) =~= s1);
        assert(s2.map_values(f) =~= (a.map_values(f) + seq![x].map_values(f)) + b.map_values(f));
        assert((a + b).map_values(f) =~= a.map_values(f) + b.map_values(f));
        vstd::seq_lib::lemma_multiset_commutative(
            a.map_values(f) + seq![x].map_values(f),
            b.map_values(f),
        );
        vstd::seq_lib::lemma_multiset_commutative(a.map_values(f), seq![x].map_values(f));
        vstd::seq_lib::lemma_multiset_commutative(a.map_values(f), b.map_values(f));
        assert(seq![x].map_values(f) =~= Seq::<B>::empty().push(f(x)));
        assert(seq![x].map_values(f).to_multiset() =~= Multiset::<B>::empty().insert(f(x)));
        assert(s1.map_values(f) == s1.drop_last().map_values(f).push(f(x)));
        assert(s1.map_values(f).to_multiset() =~= s1.drop_last().map_values(
            f,
        ).to_multiset().insert(f(x)));
        assert(s2.map_values(f).to_multiset() =~= s2.remove(i).map_values(
            f,
        ).to_multiset().insert(f(x)));
    }
}

/// Sequences with the same elements (as a multiset) contain the same
/// elements.
pub proof fn lemma_multiset_same_contains<A>(s1: Seq<A>, s2: Seq<A>)
    requires
        s1.to_multiset() == s2.to_multiset(),
    ensures
        forall|x: A| s1.contains(x) <==> s2.contains(x),
{
    s1.to_multiset_ensures();
    s2.to_multiset_ensures();
    assert forall|x: A| s1.contains(x) <==> s2.contains(x) by {
        assert(s1.contains(x) <==> s1.to_multiset().count(x) > 0);
        assert(s2.contains(x) <==> s2.to_multiset().count(x) > 0);
    }
}

} // verus!
