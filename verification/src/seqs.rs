use vstd::multiset::group_multiset_axioms;
use vstd::prelude::*;
use vstd::seq_lib::group_to_multiset_ensures;

verus! {

/// Filtering a sequence that ends in `last` filters what comes before it and
/// then keeps or drops `last`.
pub proof fn lemma_filter_push<A>(s: Seq<A>, last: A, keep: spec_fn(A) -> bool)
    ensures
        s.push(last).filter(keep) == if keep(last) {
            s.filter(keep).push(last)
        } else {
            s.filter(keep)
        },
{
    reveal(Seq::filter);
    assert(s.push(last).drop_last() =~= s);
}

/// A filter keeps nothing exactly when no element passes it.
pub proof fn lemma_filter_nothing<A>(s: Seq<A>, keep: spec_fn(A) -> bool)
    ensures
        s.filter(keep).len() == 0 <==> forall|i: int| 0 <= i < s.len() ==> !keep(#[trigger] s[i]),
{
    if s.filter(keep).len() > 0 {
        let kept = s.filter(keep)[0];
        s.lemma_filter_pred(keep, 0);
        assert(s.filter(keep).contains(kept));
        s.lemma_filter_contains_rev(keep, kept);
        let i = choose|i: int| 0 <= i < s.len() && s[i] == kept;
        assert(keep(s[i]));
    } else {
        assert forall|i: int| 0 <= i < s.len() implies !keep(#[trigger] s[i]) by {
            if keep(s[i]) {
                s.lemma_filter_contains(keep, i);
            }
        }
    }
}

/// A filter that every element passes keeps the sequence as it is.
pub proof fn lemma_filter_everything<A>(s: Seq<A>, keep: spec_fn(A) -> bool)
    requires
        forall|i: int| 0 <= i < s.len() ==> keep(#[trigger] s[i]),
    ensures
        s.filter(keep) == s,
    decreases s.len(),
{
    if s.len() == 0 {
        reveal(Seq::filter);
    } else {
        let earlier = s.drop_last();
        assert forall|i: int| 0 <= i < earlier.len() implies keep(#[trigger] earlier[i]) by {
            assert(earlier[i] == s[i]);
        }
        lemma_filter_everything(earlier, keep);
        lemma_filter_push(earlier, s.last(), keep);
        assert(earlier.push(s.last()) =~= s);
    }
}

/// Filtering twice is filtering once by both tests.
pub proof fn lemma_filter_twice<A>(
    s: Seq<A>,
    first: spec_fn(A) -> bool,
    second: spec_fn(A) -> bool,
    both: spec_fn(A) -> bool,
)
    requires
        forall|x: A| #[trigger] both(x) == (first(x) && second(x)),
    ensures
        s.filter(first).filter(second) == s.filter(both),
    decreases s.len(),
{
    if s.len() == 0 {
        reveal(Seq::filter);
    } else {
        let earlier = s.drop_last();
        let last = s.last();
        lemma_filter_twice(earlier, first, second, both);
        assert(earlier.push(last) =~= s);
        lemma_filter_push(earlier, last, first);
        lemma_filter_push(earlier, last, both);
        if first(last) {
            lemma_filter_push(earlier.filter(first), last, second);
        }
    }
}

/// How often a value occurs in what a filter keeps: as often as before if
/// it passes, never if not.
pub proof fn lemma_filter_count<A>(s: Seq<A>, keep: spec_fn(A) -> bool, value: A)
    ensures
        s.filter(keep).to_multiset().count(value) == if keep(value) {
            s.to_multiset().count(value)
        } else {
            0
        },
    decreases s.len(),
{
    broadcast use {group_to_multiset_ensures, group_multiset_axioms};

    if s.len() == 0 {
        reveal(Seq::filter);
        assert(s.filter(keep) =~= s);
    } else {
        let earlier = s.drop_last();
        let last = s.last();
        lemma_filter_count(earlier, keep, value);
        lemma_filter_push(earlier, last, keep);
        assert(earlier.push(last) =~= s);
        assert(earlier.push(last).to_multiset() =~= earlier.to_multiset().insert(last));
        if keep(last) {
            assert(earlier.filter(keep).push(last).to_multiset() =~= earlier.filter(
                keep,
            ).to_multiset().insert(last));
        }
    }
}

/// Sequences with the same elements keep the same elements under a filter.
pub proof fn lemma_filter_same_elements<A>(a: Seq<A>, b: Seq<A>, keep: spec_fn(A) -> bool)
    requires
        a.to_multiset() == b.to_multiset(),
    ensures
        a.filter(keep).to_multiset() == b.filter(keep).to_multiset(),
{
    assert forall|value: A|
        a.filter(keep).to_multiset().count(value) == b.filter(keep).to_multiset().count(value) by {
        lemma_filter_count(a, keep, value);
        lemma_filter_count(b, keep, value);
    }
    assert(a.filter(keep).to_multiset() =~= b.filter(keep).to_multiset());
}

/// Sequences with the same elements have the same elements after a map.
pub proof fn lemma_map_same_elements<A, B>(a: Seq<A>, b: Seq<A>, f: spec_fn(A) -> B)
    requires
        a.to_multiset() == b.to_multiset(),
    ensures
        a.map_values(f).to_multiset() == b.map_values(f).to_multiset(),
    decreases a.len(),
{
    broadcast use {group_to_multiset_ensures, group_multiset_axioms};

    assert(a.len() == a.to_multiset().len());
    assert(b.len() == b.to_multiset().len());
    if a.len() == 0 {
        assert(a.map_values(f) =~= b.map_values(f));
    } else {
        let last = a.last();
        let earlier = a.drop_last();
        assert(earlier.push(last) =~= a);
        assert(a.to_multiset() =~= earlier.to_multiset().insert(last));
        assert(a.contains(last));
        assert(b.to_multiset().count(last) > 0);
        assert(b.contains(last));
        let j = choose|j: int| 0 <= j < b.len() && b[j] == last;
        let others = b.remove(j);
        assert(others.to_multiset() =~= b.to_multiset().remove(last));
        assert(earlier.to_multiset() =~= others.to_multiset());
        lemma_map_same_elements(earlier, others, f);
        let mapped_a = a.map_values(f);
        let mapped_b = b.map_values(f);
        assert(earlier.map_values(f).push(f(last)) =~= mapped_a);
        assert(mapped_a.to_multiset() =~= earlier.map_values(f).to_multiset().insert(f(last)));
        assert(mapped_b.remove(j) =~= others.map_values(f));
        assert(mapped_b[j] == f(last));
        assert(mapped_b.remove(j).to_multiset() =~= mapped_b.to_multiset().remove(f(last)));
        assert(mapped_b.contains(f(last)));
        assert(mapped_b.to_multiset().count(f(last)) > 0);
        assert(mapped_b.to_multiset() =~= mapped_b.to_multiset().remove(f(last)).insert(f(last)));
    }
}

} // verus!
