//! Sequences of URLs used as sets: what is new in a list of items, in the
//! order in which it first appears.

use vstd::prelude::*;

verus! {

/// The items that `known` does not hold, each once, in the order of their
/// first appearance in `items`.
pub open spec fn fresh<A>(known: Seq<A>, items: Seq<A>) -> Seq<A>
    decreases items.len(),
{
    if items.len() == 0 {
        Seq::empty()
    } else {
        let earlier = fresh(known, items.drop_last());
        let item = items.last();
        if known.contains(item) || earlier.contains(item) {
            earlier
        } else {
            earlier.push(item)
        }
    }
}

/// Whether two sequences have no element in common.
pub open spec fn disjoint<A>(a: Seq<A>, b: Seq<A>) -> bool {
    forall|x: A| !(a.contains(x) && b.contains(x))
}

/// `fresh` holds exactly the items that `known` lacks.
pub proof fn lemma_fresh_contains<A>(known: Seq<A>, items: Seq<A>)
    ensures
        forall|x: A| #[trigger]
            fresh(known, items).contains(x) <==> items.contains(x) && !known.contains(x),
    decreases items.len(),
{
    if items.len() > 0 {
        let rest = items.drop_last();
        let item = items.last();
        let earlier = fresh(known, rest);
        lemma_fresh_contains(known, rest);
        assert forall|x: A| #[trigger]
            fresh(known, items).contains(x) <==> items.contains(x) && !known.contains(x) by {
            assert(items =~= rest.push(item));
            if items.contains(x) {
                let i = choose|i: int| 0 <= i < items.len() && items[i] == x;
                if i < rest.len() {
                    assert(rest[i] == x);
                }
            }
            if rest.contains(x) {
                let i = choose|i: int| 0 <= i < rest.len() && rest[i] == x;
                assert(items[i] == x);
            }
            assert(items[items.len() - 1] == item);
            if earlier.contains(x) {
                let i = choose|i: int| 0 <= i < earlier.len() && earlier[i] == x;
                assert(earlier.push(item)[i] == x);
            }
            if !(known.contains(item) || earlier.contains(item)) {
                assert(earlier.push(item)[earlier.len() as int] == item);
                if earlier.push(item).contains(x) {
                    let i = choose|i: int| 0 <= i < earlier.push(item).len() && earlier.push(
                        item,
                    )[i] == x;
                    if i < earlier.len() {
                        assert(earlier[i] == x);
                    }
                }
            }
        }
    }
}

/// `fresh` holds nothing twice.
pub proof fn lemma_fresh_distinct<A>(known: Seq<A>, items: Seq<A>)
    ensures
        fresh(known, items).no_duplicates(),
    decreases items.len(),
{
    if items.len() > 0 {
        lemma_fresh_distinct(known, items.drop_last());
    }
}

/// Behind a `known` that holds nothing twice, `fresh` adds no duplicate.
pub proof fn lemma_fresh_extends<A>(known: Seq<A>, items: Seq<A>)
    requires
        known.no_duplicates(),
    ensures
        (known + fresh(known, items)).no_duplicates(),
        disjoint(known, fresh(known, items)),
{
    lemma_fresh_contains(known, items);
    lemma_fresh_distinct(known, items);
    let added = fresh(known, items);
    assert forall|i: int, j: int| 0 <= i < j < (known + added).len() implies (known + added)[i] != (
    known + added)[j] by {
        if i < known.len() && j >= known.len() {
            assert(known.contains(known[i]));
            assert(added.contains(added[j - known.len()]));
        }
    }
}

/// One more item at the end either joins what is fresh or changes nothing.
pub proof fn lemma_fresh_push<A>(known: Seq<A>, items: Seq<A>, item: A)
    ensures
        fresh(known, items.push(item)) == if known.contains(item) || fresh(known, items).contains(
            item,
        ) {
            fresh(known, items)
        } else {
            fresh(known, items).push(item)
        },
{
    assert(items.push(item).drop_last() =~= items);
}

/// A concatenation holds what either part holds.
pub proof fn lemma_concat_contains<A>(a: Seq<A>, b: Seq<A>, x: A)
    ensures
        (a + b).contains(x) <==> a.contains(x) || b.contains(x),
{
    if (a + b).contains(x) {
        let i = choose|i: int| 0 <= i < (a + b).len() && (a + b)[i] == x;
        if i < a.len() {
            assert(a[i] == x);
        } else {
            assert(b[i - a.len()] == x);
        }
    }
    if a.contains(x) {
        let i = choose|i: int| 0 <= i < a.len() && a[i] == x;
        assert((a + b)[i] == x);
    }
    if b.contains(x) {
        let i = choose|i: int| 0 <= i < b.len() && b[i] == x;
        assert((a + b)[a.len() + i] == x);
    }
}

} // verus!
