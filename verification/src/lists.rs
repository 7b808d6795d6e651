//! Facts about lists: filtering, inserting, and the order of sequences.

use vstd::prelude::*;

verus! {

// ── Filtering ────────────────────────────────────────────────────────

/// Filtering the first elements of a sequence, one more at a time.
pub proof fn lemma_filter_step<A>(all: Seq<A>, keep: spec_fn(A) -> bool, at: int)
    requires
        0 <= at < all.len(),
    ensures
        all.take(at + 1).filter(keep) == if keep(all[at]) {
            all.take(at).filter(keep).push(all[at])
        } else {
            all.take(at).filter(keep)
        },
{
    reveal(Seq::filter);
    assert(all.take(at + 1).drop_last() == all.take(at));
    assert(all.take(at + 1).last() == all[at]);
}

/// Filtering leaves a sequence alone in which everything passes.
pub proof fn lemma_filter_all<A>(all: Seq<A>, keep: spec_fn(A) -> bool)
    requires
        forall|i: int| 0 <= i < all.len() ==> keep(#[trigger] all[i]),
    ensures
        all.filter(keep) == all,
    decreases all.len(),
{
    reveal(Seq::filter);
    if all.len() > 0 {
        lemma_filter_all(all.drop_last(), keep);
        assert(all.drop_last().push(all.last()) == all);
    }
}

/// Filtering twice is filtering once.
pub proof fn lemma_filter_twice<A>(all: Seq<A>, keep: spec_fn(A) -> bool)
    ensures
        all.filter(keep).filter(keep) == all.filter(keep),
{
    broadcast use vstd::seq_lib::group_filter_ensures;

    lemma_filter_all(all.filter(keep), keep);
}

/// What is left after filtering is what was there and passes.
pub proof fn lemma_filter_holds<A>(all: Seq<A>, keep: spec_fn(A) -> bool, element: A)
    ensures
        all.filter(keep).contains(element) <==> all.contains(element) && keep(element),
{
    if all.filter(keep).contains(element) {
        all.lemma_filter_contains_rev(keep, element);
        let i = choose|i: int| 0 <= i < all.filter(keep).len() && all.filter(keep)[i] == element;
        all.lemma_filter_pred(keep, i);
    }
    if all.contains(element) && keep(element) {
        let i = choose|i: int| 0 <= i < all.len() && all[i] == element;
        all.lemma_filter_contains(keep, i);
    }
}

/// Filtering by two tests that agree on every element.
pub proof fn lemma_filters_agree<A>(
    all: Seq<A>,
    keep: spec_fn(A) -> bool,
    other: spec_fn(A) -> bool,
)
    requires
        forall|i: int| 0 <= i < all.len() ==> keep(#[trigger] all[i]) == other(all[i]),
    ensures
        all.filter(keep) == all.filter(other),
    decreases all.len(),
{
    reveal(Seq::filter);
    if all.len() > 0 {
        let rest = all.drop_last();
        assert forall|i: int| 0 <= i < rest.len() implies keep(#[trigger] rest[i]) == other(
            rest[i],
        ) by {
            assert(rest[i] == all[i]);
        }
        lemma_filters_agree(rest, keep, other);
        assert(keep(all[all.len() - 1]) == other(all[all.len() - 1]));
    }
}

/// What passes a test does not depend on the order in which the test is made.
pub proof fn lemma_filter_multiset<A>(all: Seq<A>, keep: spec_fn(A) -> bool)
    ensures
        all.filter(keep).to_multiset() == all.to_multiset().filter(keep),
    decreases all.len(),
{
    broadcast use vstd::seq_lib::group_to_multiset_ensures;

    reveal(Seq::filter);
    if all.len() > 0 {
        let rest = all.drop_last();
        lemma_filter_multiset(rest, keep);
        assert(rest.push(all.last()) == all);
        assert(rest.filter(keep).push(all.last()).to_multiset() =~= rest.filter(
            keep,
        ).to_multiset().insert(all.last()));
        assert(all.to_multiset() =~= rest.to_multiset().insert(all.last()));
    }
    assert(all.filter(keep).to_multiset() =~= all.to_multiset().filter(keep));
}

// ── Inserting ────────────────────────────────────────────────────────

/// Inserting an element adds one occurrence of it and changes nothing else.
pub proof fn lemma_insert_multiset<A>(all: Seq<A>, at: int, element: A)
    requires
        0 <= at <= all.len(),
    ensures
        all.insert(at, element).to_multiset() == all.to_multiset().insert(element),
{
    broadcast use vstd::seq_lib::group_to_multiset_ensures;

    let grown = all.insert(at, element);
    all.insert_ensures(at, element);
    assert(grown.remove(at) == all);
    assert(grown[at] == element);
    assert(grown.contains(element));
    assert(grown.to_multiset().remove(element).insert(element) == grown.to_multiset());
}

/// Filtering a list in which an element was inserted.
pub proof fn lemma_insert_filter<A>(all: Seq<A>, at: int, element: A, keep: spec_fn(A) -> bool)
    requires
        0 <= at <= all.len(),
        forall|i: int| at <= i < all.len() ==> !keep(#[trigger] all[i]) || !keep(element),
    ensures
        all.insert(at, element).filter(keep) == all.push(element).filter(keep),
{
    broadcast use Seq::filter_distributes_over_add;

    let front = all.take(at);
    let back = all.skip(at);
    assert(all == front + back);
    assert(all.insert(at, element) == front + seq![element] + back);
    assert(all.push(element) == front + back + seq![element]);
    if keep(element) {
        lemma_filter_none(back, keep);
        assert(front.filter(keep) + seq![element].filter(keep) + back.filter(keep)
            == front.filter(keep) + back.filter(keep) + seq![element].filter(keep));
    } else {
        lemma_filter_none(seq![element], keep);
        assert(front.filter(keep) + seq![element].filter(keep) + back.filter(keep)
            == front.filter(keep) + back.filter(keep) + seq![element].filter(keep));
    }
}

/// Filtering a sequence in which nothing passes leaves nothing.
pub proof fn lemma_filter_none<A>(all: Seq<A>, keep: spec_fn(A) -> bool)
    requires
        forall|i: int| 0 <= i < all.len() ==> !keep(#[trigger] all[i]),
    ensures
        all.filter(keep) == Seq::<A>::empty(),
    decreases all.len(),
{
    reveal(Seq::filter);
    if all.len() > 0 {
        lemma_filter_none(all.drop_last(), keep);
    }
}

// ── Order ────────────────────────────────────────────────────────────

/// The function tells apart what differs, and orders: negative is before, zero
/// is equal, positive is after.
pub open spec fn is_total_order<A>(order: spec_fn(A, A) -> int) -> bool {
    &&& forall|a: A, b: A| #[trigger] order(a, b) == 0 <==> a == b
    &&& forall|a: A, b: A| #[trigger] order(a, b) < 0 <==> order(b, a) > 0
    &&& forall|a: A, b: A, c: A|
        #[trigger] order(a, b) <= 0 && #[trigger] order(b, c) <= 0 ==> order(a, c) <= 0
}

/// The order of two sequences by their first difference; a sequence stands before
/// those that it begins.
pub open spec fn lexicographic<A>(order: spec_fn(A, A) -> int, a: Seq<A>, b: Seq<A>) -> int
    decreases a.len(),
{
    if a.len() == 0 {
        if b.len() == 0 {
            0
        } else {
            -1
        }
    } else if b.len() == 0 {
        1
    } else if order(a[0], b[0]) != 0 {
        order(a[0], b[0])
    } else {
        lexicographic(order, a.drop_first(), b.drop_first())
    }
}

/// Sequences of ordered things are ordered.
pub proof fn lemma_lexicographic_is_total<A>(order: spec_fn(A, A) -> int)
    requires
        is_total_order(order),
    ensures
        is_total_order(|a: Seq<A>, b: Seq<A>| lexicographic(order, a, b)),
{
    let lifted = |a: Seq<A>, b: Seq<A>| lexicographic(order, a, b);
    assert forall|a: Seq<A>, b: Seq<A>| #[trigger] lifted(a, b) == 0 <==> a == b by {
        lemma_lexicographic_pair(order, a, b);
    }
    assert forall|a: Seq<A>, b: Seq<A>| #[trigger] lifted(a, b) < 0 <==> lifted(b, a) > 0 by {
        lemma_lexicographic_pair(order, a, b);
    }
    assert forall|a: Seq<A>, b: Seq<A>, c: Seq<A>|
        #[trigger] lifted(a, b) <= 0 && #[trigger] lifted(b, c) <= 0 implies lifted(a, c) <= 0 by {
        lemma_lexicographic_transitive(order, a, b, c);
    }
}

proof fn lemma_lexicographic_pair<A>(order: spec_fn(A, A) -> int, a: Seq<A>, b: Seq<A>)
    requires
        is_total_order(order),
    ensures
        lexicographic(order, a, b) == 0 <==> a == b,
        lexicographic(order, a, b) < 0 <==> lexicographic(order, b, a) > 0,
    decreases a.len(),
{
    if a.len() > 0 && b.len() > 0 {
        assert(order(a[0], b[0]) < 0 <==> order(b[0], a[0]) > 0);
        assert(order(b[0], a[0]) < 0 <==> order(a[0], b[0]) > 0);
        if a[0] == b[0] {
            lemma_lexicographic_pair(order, a.drop_first(), b.drop_first());
            assert(a == seq![a[0]] + a.drop_first());
            assert(b == seq![b[0]] + b.drop_first());
        }
    } else if a.len() == 0 && b.len() == 0 {
        assert(a == b);
    }
}

proof fn lemma_lexicographic_transitive<A>(
    order: spec_fn(A, A) -> int,
    a: Seq<A>,
    b: Seq<A>,
    c: Seq<A>,
)
    requires
        is_total_order(order),
        lexicographic(order, a, b) <= 0,
        lexicographic(order, b, c) <= 0,
    ensures
        lexicographic(order, a, c) <= 0,
    decreases a.len(),
{
    if a.len() > 0 && b.len() > 0 && c.len() > 0 {
        assert(order(a[0], b[0]) <= 0);
        assert(order(b[0], c[0]) <= 0);
        assert(order(a[0], c[0]) <= 0);
        assert(order(b[0], a[0]) < 0 <==> order(a[0], b[0]) > 0);
        assert(order(c[0], b[0]) < 0 <==> order(b[0], c[0]) > 0);
        if order(a[0], c[0]) == 0 {
            assert(a[0] == c[0]);
            assert(order(a[0], b[0]) < 0 <==> order(b[0], a[0]) > 0);
            assert(a[0] == b[0]);
            lemma_lexicographic_transitive(order, a.drop_first(), b.drop_first(), c.drop_first());
        }
    }
}

} // verus!
