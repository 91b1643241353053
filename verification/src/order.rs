//! Stable sorting by an order on the models of the items.

use vstd::prelude::*;

verus! {

/// The models of a list of items.
pub open spec fn views<T: View>(items: Seq<T>) -> Seq<T::V> {
    items.map_values(|item: T| item@)
}

/// An order that a list can be sorted by.
pub trait Order<T: View> {
    /// The first item has to stand before the second.
    spec fn precedes(a: T::V, b: T::V) -> bool;

    fn is_before(a: &T, b: &T) -> (r: bool)
        ensures
            r == Self::precedes(a@, b@),
    ;
}

/// The list `s` with `x` put behind the last item that `x` does not have to stand before.
pub open spec fn insert_by<A>(s: Seq<A>, x: A, before: spec_fn(A, A) -> bool) -> Seq<A>
    decreases s.len(),
{
    if s.len() > 0 && before(x, s.last()) {
        insert_by(s.drop_last(), x, before).push(s.last())
    } else {
        s.push(x)
    }
}

/// The items in order; of two items that may stand either way, the earlier one stays first.
pub open spec fn sorted_by<A>(s: Seq<A>, before: spec_fn(A, A) -> bool) -> Seq<A>
    decreases s.len(),
{
    if s.len() == 0 {
        s
    } else {
        insert_by(sorted_by(s.drop_last(), before), s.last(), before)
    }
}

/// No item stands behind one that it has to stand before.
pub open spec fn in_order<A>(s: Seq<A>, before: spec_fn(A, A) -> bool) -> bool {
    forall|i: int, j: int| 0 <= i < j < s.len() ==> !before(s[j], s[i])
}

/// `before` is a strict weak order on the items that `ranked` holds of.
pub open spec fn weak_order<A>(
    before: spec_fn(A, A) -> bool,
    ranked: spec_fn(A) -> bool,
) -> bool {
    &&& forall|a: A, b: A| ranked(a) && ranked(b) && #[trigger] before(a, b) ==> !before(b, a)
    &&& forall|a: A, b: A, c: A|
        #![trigger before(a, b), before(b, c)]
        ranked(a) && ranked(b) && ranked(c) && !before(a, b) && !before(b, c) ==> !before(a, c)
}

/// `ranked` holds of every item of a list.
pub open spec fn all_ranked<A>(s: Seq<A>, ranked: spec_fn(A) -> bool) -> bool {
    forall|i: int| 0 <= i < s.len() ==> ranked(#[trigger] s[i])
}

proof fn lemma_insert_by_at<A>(s: Seq<A>, x: A, before: spec_fn(A, A) -> bool, k: int)
    requires
        0 <= k <= s.len(),
        forall|i: int| k <= i < s.len() ==> before(x, s[i]),
        k > 0 ==> !before(x, s[k - 1]),
    ensures
        insert_by(s, x, before) == s.insert(k, x),
    decreases s.len() - k,
{
    if k < s.len() {
        lemma_insert_by_at(s.drop_last(), x, before, k);
        assert(s.drop_last().insert(k, x).push(s.last()) =~= s.insert(k, x));
    } else {
        assert(s.push(x) =~= s.insert(k, x));
    }
}

/// Sorts a list.
pub fn stable_sort<T: View, O: Order<T>>(items: Vec<T>) -> (r: Vec<T>)
    ensures
        views(r@) == sorted_by(views(items@), |a: T::V, b: T::V| O::precedes(a, b)),
{
    let ghost all = views(items@);
    let ghost before = |a: T::V, b: T::V| O::precedes(a, b);
    let n = items.len();
    let mut items = items;
    let mut pending: Vec<T> = Vec::new();
    while items.len() > 0
        invariant
            n == all.len(),
            items@.len() + pending@.len() == n,
            views(items@) == all.take(items@.len() as int),
            forall|i: int|
                0 <= i < pending@.len() ==> (#[trigger] pending@[i])@ == all[n - 1 - i],
        decreases items@.len(),
    {
        let ghost m = items@.len();
        assert(views(items@)[m - 1] == all[m - 1]);
        let item = items.pop().unwrap();
        assert(views(items@) =~= all.take(m - 1));
        pending.push(item);
    }
    let mut out: Vec<T> = Vec::new();
    assert(views(out@) =~= all.take(0));
    while pending.len() > 0
        invariant
            n == all.len(),
            out@.len() + pending@.len() == n,
            before == (|a: T::V, b: T::V| O::precedes(a, b)),
            views(out@) == sorted_by(all.take(out@.len() as int), before),
            forall|i: int|
                0 <= i < pending@.len() ==> (#[trigger] pending@[i])@ == all[n - 1 - i],
        decreases pending@.len(),
    {
        let ghost done = out@.len() as int;
        let item = pending.pop().unwrap();
        assert(item@ == all[done]);
        let mut at: usize = out.len();
        while at > 0 && O::is_before(&item, &out[at - 1])
            invariant
                at <= out@.len(),
                before == (|a: T::V, b: T::V| O::precedes(a, b)),
                forall|i: int| at <= i < out@.len() ==> before(item@, (#[trigger] out@[i])@),
            decreases at,
        {
            at = at - 1;
        }
        let ghost sorted = views(out@);
        let ghost x = item@;
        out.insert(at, item);
        proof {
            assert forall|i: int| at <= i < sorted.len() implies before(x, sorted[i]) by {}
            lemma_insert_by_at(sorted, x, before, at as int);
            assert(views(out@) =~= sorted.insert(at as int, x));
            assert(all.take(done + 1).drop_last() =~= all.take(done));
        }
    }
    assert(all.take(n as int) =~= all);
    out
}

/// Putting an item into a list adds that item alone.
pub proof fn lemma_insert_by_members<A>(s: Seq<A>, x: A, before: spec_fn(A, A) -> bool)
    ensures
        insert_by(s, x, before).len() == s.len() + 1,
        insert_by(s, x, before).to_multiset() == s.to_multiset().insert(x),
    decreases s.len(),
{
    broadcast use vstd::seq_lib::group_to_multiset_ensures;

    if s.len() > 0 && before(x, s.last()) {
        let rest = s.drop_last();
        lemma_insert_by_members(rest, x, before);
        assert(s =~= rest.push(s.last()));
        assert(rest.to_multiset().insert(x).insert(s.last()) =~= rest.to_multiset().insert(
            s.last(),
        ).insert(x));
    }
}

/// Putting an item into an ordered list keeps the list ordered.
pub proof fn lemma_insert_by_ordered<A>(
    s: Seq<A>,
    x: A,
    before: spec_fn(A, A) -> bool,
    ranked: spec_fn(A) -> bool,
)
    requires
        weak_order(before, ranked),
        in_order(s, before),
        all_ranked(s, ranked),
        ranked(x),
    ensures
        in_order(insert_by(s, x, before), before),
        all_ranked(insert_by(s, x, before), ranked),
        forall|i: int|
            0 <= i < insert_by(s, x, before).len() ==> (#[trigger] insert_by(s, x, before)[i] == x
                || exists|k: int|
                0 <= k < s.len() && #[trigger] s[k] == insert_by(s, x, before)[i]),
    decreases s.len(),
{
    let r = insert_by(s, x, before);
    if s.len() > 0 && before(x, s.last()) {
        let rest = s.drop_last();
        assert(in_order(rest, before)) by {
            assert forall|i: int, j: int| 0 <= i < j < rest.len() implies !before(
                rest[j],
                rest[i],
            ) by {
                assert(rest[i] == s[i] && rest[j] == s[j]);
            }
        }
        assert(all_ranked(rest, ranked)) by {
            assert forall|i: int| 0 <= i < rest.len() implies ranked(#[trigger] rest[i]) by {
                assert(rest[i] == s[i]);
            }
        }
        lemma_insert_by_ordered(rest, x, before, ranked);
        let head = insert_by(rest, x, before);
        assert(ranked(s[s.len() - 1]));
        assert forall|i: int| 0 <= i < r.len() implies (#[trigger] r[i] == x || exists|k: int|
            0 <= k < s.len() && #[trigger] s[k] == r[i]) by {
            if i < head.len() {
                assert(r[i] == head[i]);
                if head[i] != x {
                    let k = choose|k: int| 0 <= k < rest.len() && #[trigger] rest[k] == head[i];
                    assert(s[k] == r[i]);
                }
            } else {
                assert(s[s.len() - 1] == r[i]);
            }
        }
        assert forall|i: int| 0 <= i < r.len() implies ranked(#[trigger] r[i]) by {
            if i < head.len() {
                assert(r[i] == head[i]);
            }
        }
        assert forall|i: int, j: int| 0 <= i < j < r.len() implies !before(r[j], r[i]) by {
            assert(r[i] == head[i]);
            if j < head.len() {
                assert(r[j] == head[j]);
            } else if head[i] != x {
                let k = choose|k: int| 0 <= k < rest.len() && #[trigger] rest[k] == head[i];
                assert(s[k] == head[i]);
                assert(!before(s[s.len() - 1], s[k]));
            }
        }
    } else {
        assert forall|i: int| 0 <= i < r.len() implies (#[trigger] r[i] == x || exists|k: int|
            0 <= k < s.len() && #[trigger] s[k] == r[i]) by {
            if i < s.len() {
                assert(s[i] == r[i]);
            }
        }
        assert forall|i: int| 0 <= i < r.len() implies ranked(#[trigger] r[i]) by {
            if i < s.len() {
                assert(s[i] == r[i]);
            }
        }
        assert forall|i: int, j: int| 0 <= i < j < r.len() implies !before(r[j], r[i]) by {
            if j < s.len() {
                assert(!before(s[j], s[i]));
            } else {
                assert(ranked(s[s.len() - 1]) && ranked(s[i]));
                assert(!before(x, s[s.len() - 1]));
                if i < s.len() - 1 {
                    assert(!before(s[s.len() - 1], s[i]));
                }
            }
        }
    }
}

/// Sorting keeps the items: none is lost, none is added, none is doubled.
pub proof fn law_sorting_keeps_items<A>(s: Seq<A>, before: spec_fn(A, A) -> bool)
    ensures
        sorted_by(s, before).len() == s.len(),
        sorted_by(s, before).to_multiset() == s.to_multiset(),
    decreases s.len(),
{
    broadcast use vstd::seq_lib::group_to_multiset_ensures;

    if s.len() > 0 {
        law_sorting_keeps_items(s.drop_last(), before);
        lemma_insert_by_members(sorted_by(s.drop_last(), before), s.last(), before);
        assert(s =~= s.drop_last().push(s.last()));
    }
}

/// A sorted list is in order.
pub proof fn law_sorting_orders<A>(
    s: Seq<A>,
    before: spec_fn(A, A) -> bool,
    ranked: spec_fn(A) -> bool,
)
    requires
        weak_order(before, ranked),
        all_ranked(s, ranked),
    ensures
        in_order(sorted_by(s, before), before),
        all_ranked(sorted_by(s, before), ranked),
    decreases s.len(),
{
    if s.len() > 0 {
        let rest = s.drop_last();
        assert forall|i: int| 0 <= i < rest.len() implies ranked(#[trigger] rest[i]) by {
            assert(rest[i] == s[i]);
        }
        law_sorting_orders(rest, before, ranked);
        assert(ranked(s[s.len() - 1]));
        lemma_insert_by_ordered(sorted_by(rest, before), s.last(), before, ranked);
    }
}

/// A list that is in order is not changed by sorting it.
pub proof fn law_sorting_keeps_order<A>(s: Seq<A>, before: spec_fn(A, A) -> bool)
    requires
        in_order(s, before),
    ensures
        sorted_by(s, before) == s,
    decreases s.len(),
{
    if s.len() > 0 {
        let rest = s.drop_last();
        assert forall|i: int, j: int| 0 <= i < j < rest.len() implies !before(
            rest[j],
            rest[i],
        ) by {
            assert(rest[i] == s[i] && rest[j] == s[j]);
        }
        law_sorting_keeps_order(rest, before);
        if rest.len() > 0 {
            assert(!before(s[s.len() - 1], s[s.len() - 2]));
        }
        assert(rest.push(s.last()) =~= s);
    }
}

/// No two items of a list have the same key.
pub open spec fn distinct_by<A, B>(s: Seq<A>, key: spec_fn(A) -> B) -> bool {
    forall|i: int, j: int|
        0 <= i < j < s.len() ==> key(#[trigger] s[i]) != key(#[trigger] s[j])
}

/// Sorting keeps the keys of a list distinct.
pub proof fn lemma_sorting_keeps_distinct<A, B>(
    s: Seq<A>,
    before: spec_fn(A, A) -> bool,
    key: spec_fn(A) -> B,
)
    requires
        distinct_by(s, key),
    ensures
        distinct_by(sorted_by(s, before), key),
{
    broadcast use vstd::seq_lib::group_to_multiset_ensures;

    let r = sorted_by(s, before);
    law_sorting_keeps_items(s, before);
    assert forall|i: int, j: int| 0 <= i < j < r.len() implies key(#[trigger] r[i]) != key(
        #[trigger] r[j],
    ) by {
        assert(r.contains(r[i]) && r.contains(r[j]));
        assert(s.to_multiset().contains(r[i]) && s.to_multiset().contains(r[j]));
        assert(s.contains(r[i]) && s.contains(r[j]));
        let m = s.index_of(r[i]);
        let n = s.index_of(r[j]);
        if m == n {
            lemma_no_repetition(s, key);
            assert(r.to_multiset().count(r[i]) <= 1);
            lemma_two_places(r, i, j);
        } else if m < n {
            assert(key(s[m]) != key(s[n]));
        } else {
            assert(key(s[n]) != key(s[m]));
        }
    }
}

proof fn lemma_no_repetition<A, B>(s: Seq<A>, key: spec_fn(A) -> B)
    requires
        distinct_by(s, key),
    ensures
        forall|x: A| #[trigger] s.to_multiset().count(x) <= 1,
{
    assert(s.no_duplicates()) by {
        assert forall|i: int, j: int|
            0 <= i < s.len() && 0 <= j < s.len() && i != j implies s[i] != s[j] by {
            if i < j {
                assert(key(s[i]) != key(s[j]));
            } else {
                assert(key(s[j]) != key(s[i]));
            }
        }
    }
    s.lemma_multiset_has_no_duplicates();
    assert forall|x: A| #[trigger] s.to_multiset().count(x) <= 1 by {
        if s.to_multiset().count(x) > 0 {
            assert(s.to_multiset().contains(x));
        }
    }
}

proof fn lemma_two_places<A>(s: Seq<A>, i: int, j: int)
    requires
        0 <= i < j < s.len(),
        s[i] == s[j],
    ensures
        s.to_multiset().count(s[i]) >= 2,
{
    broadcast use vstd::seq_lib::group_to_multiset_ensures;

    let rest = s.remove(j);
    assert(rest[i] == s[i]);
    assert(rest.contains(s[i]));
    assert(rest.to_multiset().contains(s[i]));
    assert(rest.to_multiset() =~= s.to_multiset().remove(s[j]));
}

/// A sorted list holds the items of the list.
pub proof fn lemma_sorted_contains<A>(s: Seq<A>, before: spec_fn(A, A) -> bool, x: A)
    ensures
        sorted_by(s, before).contains(x) == s.contains(x),
{
    broadcast use vstd::seq_lib::group_to_multiset_ensures;

    law_sorting_keeps_items(s, before);
    assert(sorted_by(s, before).to_multiset().contains(x) == s.to_multiset().contains(x));
}

/// Every two items of a list are related.
pub open spec fn pairwise<A>(s: Seq<A>, related: spec_fn(A, A) -> bool) -> bool {
    forall|i: int, j: int| 0 <= i < j < s.len() ==> related(#[trigger] s[i], #[trigger] s[j])
}

proof fn lemma_insert_by_pairs<A>(
    s: Seq<A>,
    x: A,
    before: spec_fn(A, A) -> bool,
    related: spec_fn(A, A) -> bool,
)
    requires
        pairwise(s, related),
        forall|i: int| 0 <= i < s.len() ==> related(#[trigger] s[i], x) && related(x, s[i]),
    ensures
        pairwise(insert_by(s, x, before), related),
    decreases s.len(),
{
    let r = insert_by(s, x, before);
    if s.len() > 0 && before(x, s.last()) {
        let rest = s.drop_last();
        assert(forall|i: int| 0 <= i < rest.len() ==> rest[i] == s[i]);
        lemma_insert_by_pairs(rest, x, before, related);
        let head = insert_by(rest, x, before);
        lemma_insert_by_contains(rest, x, before);
        assert forall|i: int, j: int| 0 <= i < j < r.len() implies related(
            #[trigger] r[i],
            #[trigger] r[j],
        ) by {
            assert(r[i] == head[i]);
            if j < head.len() {
                assert(r[j] == head[j]);
            } else {
                assert(r[j] == s[s.len() - 1]);
                assert(head.contains(head[i]));
                if head[i] != x {
                    let k = rest.index_of(head[i]);
                    assert(s[k] == head[i]);
                }
            }
        }
    } else {
        assert forall|i: int, j: int| 0 <= i < j < r.len() implies related(
            #[trigger] r[i],
            #[trigger] r[j],
        ) by {
            assert(r[i] == s[i]);
            if j < s.len() {
                assert(r[j] == s[j]);
            }
        }
    }
}

proof fn lemma_insert_by_contains<A>(s: Seq<A>, x: A, before: spec_fn(A, A) -> bool)
    ensures
        forall|y: A| #[trigger]
            insert_by(s, x, before).contains(y) ==> y == x || s.contains(y),
{
    broadcast use vstd::seq_lib::group_to_multiset_ensures;

    lemma_insert_by_members(s, x, before);
    let r = insert_by(s, x, before);
    assert forall|y: A| #[trigger] r.contains(y) implies y == x || s.contains(y) by {
        assert(r.to_multiset().contains(y));
        assert(s.to_multiset().insert(x).contains(y));
        if y != x {
            assert(s.to_multiset().contains(y));
        }
    }
}

/// What holds of every two items, whichever of them stands first, holds of them after sorting.
pub proof fn lemma_sorting_keeps_pairs<A>(
    s: Seq<A>,
    before: spec_fn(A, A) -> bool,
    related: spec_fn(A, A) -> bool,
)
    requires
        pairwise(s, related),
        forall|a: A, b: A| #[trigger] related(a, b) ==> related(b, a),
    ensures
        pairwise(sorted_by(s, before), related),
    decreases s.len(),
{
    if s.len() > 0 {
        let rest = s.drop_last();
        assert(forall|i: int| 0 <= i < rest.len() ==> rest[i] == s[i]);
        lemma_sorting_keeps_pairs(rest, before, related);
        let sorted = sorted_by(rest, before);
        assert forall|i: int| 0 <= i < sorted.len() implies related(
            #[trigger] sorted[i],
            s.last(),
        ) && related(s.last(), sorted[i]) by {
            lemma_sorted_contains(rest, before, sorted[i]);
            assert(sorted.contains(sorted[i]));
            let k = rest.index_of(sorted[i]);
            assert(related(s[k], s[s.len() - 1]));
        }
        lemma_insert_by_pairs(sorted, s.last(), before, related);
    }
}

/// The items of a list that are kept, in their order.
pub open spec fn select<A>(s: Seq<A>, keep: spec_fn(A) -> bool) -> Seq<A>
    decreases s.len(),
{
    if s.len() == 0 {
        s
    } else {
        let before = select(s.drop_last(), keep);
        if keep(s.last()) {
            before.push(s.last())
        } else {
            before
        }
    }
}

/// Choosing items is filtering the list.
pub proof fn law_select<A>(s: Seq<A>, keep: spec_fn(A) -> bool)
    ensures
        select(s, keep) == s.filter(keep),
    decreases s.len(),
{
    reveal(Seq::filter);
    if s.len() > 0 {
        law_select(s.drop_last(), keep);
    }
}

/// What is kept was there, and everything that is to be kept is.
pub proof fn lemma_select<A>(s: Seq<A>, keep: spec_fn(A) -> bool)
    ensures
        select(s, keep).len() <= s.len(),
        forall|x: A| #[trigger] select(s, keep).contains(x) <==> s.contains(x) && keep(x),
    decreases s.len(),
{
    let r = select(s, keep);
    if s.len() > 0 {
        let rest = s.drop_last();
        lemma_select(rest, keep);
        let before = select(rest, keep);
        assert forall|x: A| #[trigger] r.contains(x) <==> s.contains(x) && keep(x) by {
            if r.contains(x) {
                let k = r.index_of(x);
                if k < before.len() {
                    assert(before[k] == x);
                    assert(before.contains(x));
                    let m = rest.index_of(x);
                    assert(s[m] == x);
                } else {
                    assert(s[s.len() - 1] == x);
                }
            }
            if s.contains(x) && keep(x) {
                let k = s.index_of(x);
                if k < rest.len() {
                    assert(rest[k] == x);
                    assert(before.contains(x));
                    let m = before.index_of(x);
                    assert(r[m] == x);
                } else {
                    assert(r[r.len() - 1] == x);
                }
            }
        }
    }
}

/// Of the kept items the order is that of the list: what holds of every two items in a row of the
/// list holds of the kept ones.
pub proof fn lemma_select_pairs<A>(
    s: Seq<A>,
    keep: spec_fn(A) -> bool,
    related: spec_fn(A, A) -> bool,
)
    requires
        pairwise(s, related),
    ensures
        pairwise(select(s, keep), related),
    decreases s.len(),
{
    let r = select(s, keep);
    if s.len() > 0 {
        let rest = s.drop_last();
        assert forall|i: int, j: int| 0 <= i < j < rest.len() implies related(
            #[trigger] rest[i],
            #[trigger] rest[j],
        ) by {
            assert(rest[i] == s[i] && rest[j] == s[j]);
        }
        lemma_select_pairs(rest, keep, related);
        lemma_select(rest, keep);
        let before = select(rest, keep);
        assert forall|i: int, j: int| 0 <= i < j < r.len() implies related(
            #[trigger] r[i],
            #[trigger] r[j],
        ) by {
            assert(r[i] == before[i]);
            if j < before.len() {
                assert(r[j] == before[j]);
            } else {
                assert(before.contains(before[i]));
                let k = rest.index_of(before[i]);
                assert(s[k] == r[i]);
                assert(s[s.len() - 1] == r[j]);
            }
        }
    }
}

pub proof fn lemma_select_insert<A>(
    s: Seq<A>,
    x: A,
    before: spec_fn(A, A) -> bool,
    ranked: spec_fn(A) -> bool,
    keep: spec_fn(A) -> bool,
)
    requires
        weak_order(before, ranked),
        in_order(s, before),
        all_ranked(s, ranked),
        ranked(x),
    ensures
        select(insert_by(s, x, before), keep) == (if keep(x) {
            insert_by(select(s, keep), x, before)
        } else {
            select(s, keep)
        }),
    decreases s.len(),
{
    let r = insert_by(s, x, before);
    if s.len() > 0 {
        let rest = s.drop_last();
        let last = s.last();
        assert(s[s.len() - 1] == last);
        assert(in_order(rest, before)) by {
            assert forall|i: int, j: int| 0 <= i < j < rest.len() implies !before(
                rest[j],
                rest[i],
            ) by {
                assert(rest[i] == s[i] && rest[j] == s[j]);
            }
        }
        assert(all_ranked(rest, ranked)) by {
            assert forall|i: int| 0 <= i < rest.len() implies ranked(#[trigger] rest[i]) by {
                assert(rest[i] == s[i]);
            }
        }
        let kept = select(s, keep);
        if before(x, last) {
            lemma_select_insert(rest, x, before, ranked, keep);
            assert(r.drop_last() =~= insert_by(rest, x, before));
            assert(r.last() == last);
            if keep(last) {
                assert(kept.drop_last() =~= select(rest, keep));
            }
        } else {
            assert(r.drop_last() =~= s);
            if keep(x) && kept.len() > 0 {
                lemma_select(s, keep);
                assert(kept.contains(kept[kept.len() - 1]));
                let k = s.index_of(kept.last());
                assert(ranked(s[k]) && ranked(last));
                if k < s.len() - 1 {
                    assert(!before(s[s.len() - 1], s[k]));
                }
                assert(!before(x, kept.last()));
            }
        }
    } else {
        assert(r.drop_last() =~= s);
        assert(select(s, keep) =~= s);
    }
}

/// Sorting and choosing can be done in either order.
pub proof fn lemma_select_sorted<A>(
    s: Seq<A>,
    before: spec_fn(A, A) -> bool,
    ranked: spec_fn(A) -> bool,
    keep: spec_fn(A) -> bool,
)
    requires
        weak_order(before, ranked),
        all_ranked(s, ranked),
    ensures
        select(sorted_by(s, before), keep) == sorted_by(select(s, keep), before),
    decreases s.len(),
{
    if s.len() > 0 {
        let rest = s.drop_last();
        assert(all_ranked(rest, ranked)) by {
            assert forall|i: int| 0 <= i < rest.len() implies ranked(#[trigger] rest[i]) by {
                assert(rest[i] == s[i]);
            }
        }
        assert(ranked(s[s.len() - 1]));
        lemma_select_sorted(rest, before, ranked, keep);
        law_sorting_orders(rest, before, ranked);
        lemma_select_insert(sorted_by(rest, before), s.last(), before, ranked, keep);
        if keep(s.last()) {
            assert(select(s, keep).drop_last() =~= select(rest, keep));
        }
    }
}

/// Two ordered lists of the same items are the same list, where of any two different items one has
/// to stand before the other.
pub proof fn lemma_ordered_unique<A>(a: Seq<A>, b: Seq<A>, before: spec_fn(A, A) -> bool)
    requires
        in_order(a, before),
        in_order(b, before),
        a.to_multiset() == b.to_multiset(),
        forall|x: A, y: A|
            a.contains(x) && a.contains(y) && x != y ==> #[trigger] before(x, y) || before(y, x),
    ensures
        a == b,
    decreases a.len(),
{
    broadcast use vstd::seq_lib::group_to_multiset_ensures;

    assert(a.len() == a.to_multiset().len());
    assert(b.len() == b.to_multiset().len());
    if a.len() == 0 {
        assert(a =~= b);
    } else {
        let x = a.last();
        let y = b.last();
        assert(a[a.len() - 1] == x && b[b.len() - 1] == y);
        assert(a.contains(x) && b.contains(y));
        assert(b.to_multiset().contains(x) && a.to_multiset().contains(y));
        assert(b.contains(x) && a.contains(y));
        if x != y {
            let i = b.index_of(x);
            let j = a.index_of(y);
            assert(!before(b[b.len() - 1], b[i]));
            assert(!before(a[a.len() - 1], a[j]));
        }
        let a1 = a.drop_last();
        let b1 = b.drop_last();
        assert(a =~= a1.push(x));
        assert(b =~= b1.push(x));
        assert(a1.to_multiset() =~= a.to_multiset().remove(x));
        assert(b1.to_multiset() =~= b.to_multiset().remove(x));
        assert forall|i: int, j: int| 0 <= i < j < a1.len() implies !before(a1[j], a1[i]) by {
            assert(a1[i] == a[i] && a1[j] == a[j]);
        }
        assert forall|i: int, j: int| 0 <= i < j < b1.len() implies !before(b1[j], b1[i]) by {
            assert(b1[i] == b[i] && b1[j] == b[j]);
        }
        assert forall|u: A, v: A|
            a1.contains(u) && a1.contains(v) && u != v implies #[trigger] before(u, v) || before(
            v,
            u,
        ) by {
            let m = a1.index_of(u);
            let n = a1.index_of(v);
            assert(a[m] == u && a[n] == v);
            assert(a.contains(u) && a.contains(v));
        }
        lemma_ordered_unique(a1, b1, before);
    }
}

/// Where the kept items are those from an index on, they are the end of the list.
pub proof fn lemma_select_end<A>(s: Seq<A>, keep: spec_fn(A) -> bool, from: int)
    requires
        0 <= from <= s.len(),
        forall|i: int| 0 <= i < from ==> !keep(#[trigger] s[i]),
        forall|i: int| from <= i < s.len() ==> keep(#[trigger] s[i]),
    ensures
        select(s, keep) == s.skip(from),
    decreases s.len(),
{
    if s.len() > 0 {
        let rest = s.drop_last();
        assert(forall|i: int| 0 <= i < rest.len() ==> rest[i] == s[i]);
        assert(s[s.len() - 1] == s.last());
        if from == s.len() {
            lemma_select_end(rest, keep, from - 1);
            assert(rest.skip(from - 1) =~= Seq::<A>::empty());
            assert(s.skip(from) =~= Seq::<A>::empty());
        } else {
            lemma_select_end(rest, keep, from);
            assert(s.skip(from) =~= rest.skip(from).push(s.last()));
        }
    } else {
        assert(s.skip(from) =~= s);
    }
}

/// How often an item is kept does not depend on the order of the list.
pub proof fn lemma_select_multiset<A>(s: Seq<A>, keep: spec_fn(A) -> bool)
    ensures
        select(s, keep).to_multiset() == s.to_multiset().filter(keep),
    decreases s.len(),
{
    broadcast use vstd::seq_lib::group_to_multiset_ensures;

    if s.len() > 0 {
        let rest = s.drop_last();
        lemma_select_multiset(rest, keep);
        assert(s =~= rest.push(s.last()));
        if keep(s.last()) {
            assert(rest.to_multiset().insert(s.last()).filter(keep) =~= rest.to_multiset().filter(
                keep,
            ).insert(s.last()));
        } else {
            assert(rest.to_multiset().insert(s.last()).filter(keep) =~= rest.to_multiset().filter(
                keep,
            ));
        }
    } else {
        assert(select(s, keep).to_multiset() =~= s.to_multiset().filter(keep));
    }
}

} // verus!
