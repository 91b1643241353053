//! Choosing the candidates that contacts are inferred from.

use crate::context::first_items;
use crate::listing::{
    bot_like, candidate_is_bot_like, contact_of, higher_ranked, is_scored, lemma_rank_order,
    rank_order, ByScore,
};
use crate::models::{Candidate, CandidateView, ConnectorContact};
use crate::order::{
    all_ranked, law_sorting_orders, lemma_select, lemma_sorted_contains, select, sorted_by,
    stable_sort, views,
};
use crate::text::{ascending, insert_text, law_insert_text, put_text, same_text, texts};
use crate::text_map::{lookup, TextMap};
use vstd::prelude::*;

verus! {

/// The connector of a candidate. `prefixes` holds the prefix of each id that has one.
pub open spec fn prefix_of(id: Seq<char>, prefixes: Map<Seq<char>, Seq<char>>) -> Seq<char> {
    match lookup(prefixes, id) {
        Some(prefix) => prefix,
        None => "unknown"@,
    }
}

/// The connectors of the people among candidates, in order.
pub open spec fn prefix_list(
    candidates: Seq<CandidateView>,
    prefixes: Map<Seq<char>, Seq<char>>,
) -> Seq<Seq<char>>
    decreases candidates.len(),
{
    if candidates.len() == 0 {
        Seq::empty()
    } else {
        let before = prefix_list(candidates.drop_last(), prefixes);
        if bot_like(candidates.last()) {
            before
        } else {
            insert_text(before, prefix_of(candidates.last().id, prefixes))
        }
    }
}

/// A person of a connector.
pub open spec fn person_of(prefix: Seq<char>, prefixes: Map<Seq<char>, Seq<char>>) -> spec_fn(
    CandidateView,
) -> bool {
    |candidate: CandidateView|
        !bot_like(candidate) && prefix_of(candidate.id, prefixes) == prefix
}

/// The highest ranked people of a connector.
pub open spec fn top_of(
    candidates: Seq<CandidateView>,
    prefix: Seq<char>,
    prefixes: Map<Seq<char>, Seq<char>>,
    per_connector: int,
) -> Seq<CandidateView> {
    first_items(
        sorted_by(select(candidates, person_of(prefix, prefixes)), rank_order()),
        per_connector,
    )
}

/// The highest ranked people of several connectors, connector by connector.
pub open spec fn tops_of(
    candidates: Seq<CandidateView>,
    list: Seq<Seq<char>>,
    prefixes: Map<Seq<char>, Seq<char>>,
    per_connector: int,
) -> Seq<CandidateView>
    decreases list.len(),
{
    if list.len() == 0 {
        Seq::empty()
    } else {
        tops_of(candidates, list.drop_last(), prefixes, per_connector) + top_of(
            candidates,
            list.last(),
            prefixes,
            per_connector,
        )
    }
}

/// The sample of candidates.
pub open spec fn sample(
    candidates: Seq<CandidateView>,
    prefixes: Map<Seq<char>, Seq<char>>,
    per_connector: int,
) -> Seq<CandidateView> {
    tops_of(candidates, prefix_list(candidates, prefixes), prefixes, per_connector)
}

/// The connector of a candidate.
fn find_prefix(id: &str, prefixes: &TextMap<String>) -> (r: String)
    ensures
        r@ == prefix_of(id@, prefixes@),
{
    match prefixes.get(id) {
        Some(prefix) => prefix.clone(),
        None => "unknown".to_owned(),
    }
}

/// Chooses the highest ranked people of each connector.
pub fn sample_inference_candidates(
    candidates: &Vec<Candidate>,
    prefixes: &TextMap<String>,
    per_connector: usize,
) -> (r: Vec<Candidate>)
    ensures
        views(r@) == sample(views(candidates@), prefixes@, per_connector as int),
{
    let ghost all = views(candidates@);
    let mut list: Vec<String> = Vec::new();
    assert(texts(list@) =~= prefix_list(all.take(0), prefixes@));
    for i in 0..candidates.len()
        invariant
            all == views(candidates@),
            texts(list@) == prefix_list(all.take(i as int), prefixes@),
    {
        assert(all.take(i + 1).drop_last() =~= all.take(i as int));
        assert(all.take(i + 1).last() == candidates@[i as int]@);
        if !candidate_is_bot_like(&candidates[i]) {
            put_text(&mut list, find_prefix(candidates[i].id.as_str(), prefixes));
        }
    }
    assert(all.take(all.len() as int) =~= all);
    let ghost names = texts(list@);
    let mut sampled: Vec<Candidate> = Vec::new();
    assert(views(sampled@) =~= tops_of(all, names.take(0), prefixes@, per_connector as int));
    for k in 0..list.len()
        invariant
            all == views(candidates@),
            names == texts(list@),
            views(sampled@) == tops_of(
                all,
                names.take(k as int),
                prefixes@,
                per_connector as int,
            ),
    {
        assert(names.take(k + 1).drop_last() =~= names.take(k as int));
        assert(names.take(k + 1).last() == list@[k as int]@);
        let ghost keep = person_of(list@[k as int]@, prefixes@);
        let mut bucket: Vec<Candidate> = Vec::new();
        assert(views(bucket@) =~= select(all.take(0), keep));
        for i in 0..candidates.len()
            invariant
                all == views(candidates@),
                0 <= k < list@.len(),
                keep == person_of(list@[k as int]@, prefixes@),
                views(bucket@) == select(all.take(i as int), keep),
        {
            assert(all.take(i + 1).drop_last() =~= all.take(i as int));
            assert(all.take(i + 1).last() == candidates@[i as int]@);
            if !candidate_is_bot_like(&candidates[i]) && same_text(
                find_prefix(candidates[i].id.as_str(), prefixes).as_str(),
                list[k].as_str(),
            ) {
                let ghost before = views(bucket@);
                let item = candidates[i].copy();
                let ghost shown = item@;
                bucket.push(item);
                assert(views(bucket@) =~= before.push(shown));
            }
        }
        assert(all.take(all.len() as int) =~= all);
        let mut top = stable_sort::<Candidate, ByScore>(bucket);
        let ghost sorted = views(top@);
        top.truncate(per_connector);
        assert(views(top@) =~= first_items(sorted, per_connector as int));
        let ghost before = views(sampled@);
        let ghost added = views(top@);
        sampled.append(&mut top);
        assert(views(sampled@) =~= before + added);
    }
    assert(names.take(names.len() as int) =~= names);
    sampled
}

/// The sample of candidates as contacts.
pub fn inference_candidates(
    candidates: &Vec<Candidate>,
    prefixes: &TextMap<String>,
    ids: &TextMap<String>,
) -> (r: Vec<ConnectorContact>)
    ensures
        views(r@) == sample(
            views(candidates@),
            prefixes@,
            crate::models::DEFAULT_LIMIT as int,
        ).map_values(|candidate: CandidateView| contact_of(candidate, ids@)),
{
    let sampled = sample_inference_candidates(candidates, prefixes, crate::models::DEFAULT_LIMIT);
    let ghost all = views(sampled@);
    let mut out: Vec<ConnectorContact> = Vec::new();
    for candidate in it: sampled
        invariant
            views(it.seq()) == all,
            views(out@) == all.take(it.index()).map_values(
                |candidate: CandidateView| contact_of(candidate, ids@),
            ),
    {
        let ghost before = views(out@);
        assert(all[it.index()] == candidate@);
        let ghost item = contact_of(candidate@, ids@);
        out.push(candidate.into_contact(ids));
        assert(views(out@) =~= before.push(item));
        assert(all.take(it.index() + 1).map_values(
            |candidate: CandidateView| contact_of(candidate, ids@),
        ) =~= before.push(item));
    }
    assert(all.take(all.len() as int) =~= all);
    out
}

/// How many candidates of a connector a list holds.
pub open spec fn count_of(
    candidates: Seq<CandidateView>,
    prefix: Seq<char>,
    prefixes: Map<Seq<char>, Seq<char>>,
) -> nat {
    select(
        candidates,
        |candidate: CandidateView| prefix_of(candidate.id, prefixes) == prefix,
    ).len()
}

proof fn lemma_count_concat(
    a: Seq<CandidateView>,
    b: Seq<CandidateView>,
    prefix: Seq<char>,
    prefixes: Map<Seq<char>, Seq<char>>,
)
    ensures
        count_of(a + b, prefix, prefixes) == count_of(a, prefix, prefixes) + count_of(
            b,
            prefix,
            prefixes,
        ),
    decreases b.len(),
{
    if b.len() == 0 {
        assert(a + b =~= a);
    } else {
        lemma_count_concat(a, b.drop_last(), prefix, prefixes);
        assert((a + b).drop_last() =~= a + b.drop_last());
    }
}

proof fn lemma_count_none(
    s: Seq<CandidateView>,
    prefix: Seq<char>,
    prefixes: Map<Seq<char>, Seq<char>>,
)
    requires
        forall|i: int| 0 <= i < s.len() ==> prefix_of((#[trigger] s[i]).id, prefixes) != prefix,
    ensures
        count_of(s, prefix, prefixes) == 0,
    decreases s.len(),
{
    if s.len() > 0 {
        let rest = s.drop_last();
        assert(forall|i: int| 0 <= i < rest.len() ==> rest[i] == s[i]);
        lemma_count_none(rest, prefix, prefixes);
        assert(s[s.len() - 1] == s.last());
    }
}

proof fn lemma_top_of(
    candidates: Seq<CandidateView>,
    prefix: Seq<char>,
    prefixes: Map<Seq<char>, Seq<char>>,
    per_connector: int,
)
    requires
        per_connector >= 0,
    ensures
        top_of(candidates, prefix, prefixes, per_connector).len() <= per_connector,
        forall|i: int|
            0 <= i < top_of(candidates, prefix, prefixes, per_connector).len() ==> {
                let x = #[trigger] top_of(candidates, prefix, prefixes, per_connector)[i];
                candidates.contains(x) && !bot_like(x) && prefix_of(x.id, prefixes) == prefix
            },
{
    let keep = person_of(prefix, prefixes);
    let bucket = select(candidates, keep);
    let sorted = sorted_by(bucket, rank_order());
    let top = top_of(candidates, prefix, prefixes, per_connector);
    lemma_select(candidates, keep);
    assert forall|i: int| 0 <= i < top.len() implies {
        let x = #[trigger] top[i];
        candidates.contains(x) && !bot_like(x) && prefix_of(x.id, prefixes) == prefix
    } by {
        assert(sorted[i] == top[i]);
        assert(sorted.contains(top[i]));
        lemma_sorted_contains(bucket, rank_order(), top[i]);
    }
}

proof fn lemma_tops_of(
    candidates: Seq<CandidateView>,
    list: Seq<Seq<char>>,
    prefixes: Map<Seq<char>, Seq<char>>,
    per_connector: int,
    prefix: Seq<char>,
)
    requires
        per_connector >= 0,
        list.no_duplicates(),
    ensures
        count_of(tops_of(candidates, list, prefixes, per_connector), prefix, prefixes)
            <= per_connector,
        !list.contains(prefix) ==> count_of(
            tops_of(candidates, list, prefixes, per_connector),
            prefix,
            prefixes,
        ) == 0,
        forall|i: int|
            0 <= i < tops_of(candidates, list, prefixes, per_connector).len() ==> {
                let x = #[trigger] tops_of(candidates, list, prefixes, per_connector)[i];
                candidates.contains(x) && !bot_like(x)
            },
    decreases list.len(),
{
    let all = tops_of(candidates, list, prefixes, per_connector);
    if list.len() > 0 {
        let rest = list.drop_last();
        let last = list.last();
        let before = tops_of(candidates, rest, prefixes, per_connector);
        let top = top_of(candidates, last, prefixes, per_connector);
        assert(rest.no_duplicates());
        lemma_tops_of(candidates, rest, prefixes, per_connector, prefix);
        lemma_top_of(candidates, last, prefixes, per_connector);
        lemma_count_concat(before, top, prefix, prefixes);
        assert(list[list.len() - 1] == last);
        if prefix == last {
            assert(!rest.contains(prefix)) by {
                if rest.contains(prefix) {
                    let k = rest.index_of(prefix);
                    assert(list[k] == list[list.len() - 1]);
                }
            }
            lemma_select(
                top,
                |candidate: CandidateView| prefix_of(candidate.id, prefixes) == prefix,
            );
        } else {
            lemma_count_none(top, prefix, prefixes);
            if rest.contains(prefix) {
                let k = rest.index_of(prefix);
                assert(list[k] == prefix);
            }
        }
        assert forall|i: int| 0 <= i < all.len() implies {
            let x = #[trigger] all[i];
            candidates.contains(x) && !bot_like(x)
        } by {
            if i < before.len() {
                assert(all[i] == before[i]);
            } else {
                assert(all[i] == top[i - before.len()]);
            }
        }
    }
}

proof fn lemma_prefix_list(
    candidates: Seq<CandidateView>,
    prefixes: Map<Seq<char>, Seq<char>>,
)
    ensures
        ascending(prefix_list(candidates, prefixes)),
    decreases candidates.len(),
{
    if candidates.len() > 0 {
        let rest = candidates.drop_last();
        lemma_prefix_list(rest, prefixes);
        law_insert_text(
            prefix_list(rest, prefixes),
            prefix_of(candidates.last().id, prefixes),
        );
    }
}

/// A sample holds none but candidates, no automated account, and of each connector no more than it
/// may.
pub proof fn law_sample(
    candidates: Seq<CandidateView>,
    prefixes: Map<Seq<char>, Seq<char>>,
    per_connector: int,
    prefix: Seq<char>,
)
    requires
        per_connector >= 0,
    ensures
        count_of(sample(candidates, prefixes, per_connector), prefix, prefixes) <= per_connector,
        forall|i: int|
            0 <= i < sample(candidates, prefixes, per_connector).len() ==> {
                let x = #[trigger] sample(candidates, prefixes, per_connector)[i];
                candidates.contains(x) && !bot_like(x)
            },
{
    let list = prefix_list(candidates, prefixes);
    lemma_prefix_list(candidates, prefixes);
    assert(list.no_duplicates()) by {
        assert forall|i: int, j: int|
            0 <= i < list.len() && 0 <= j < list.len() && i != j implies list[i] != list[j] by {
            crate::text::law_order_irreflexive(list[i]);
        }
    }
    lemma_tops_of(candidates, list, prefixes, per_connector, prefix);
}

/// Nobody of a connector who was left out ranks above one who was chosen.
pub proof fn law_sample_takes_the_highest(
    candidates: Seq<CandidateView>,
    prefix: Seq<char>,
    prefixes: Map<Seq<char>, Seq<char>>,
    per_connector: int,
    chosen: int,
    other: CandidateView,
)
    requires
        per_connector >= 0,
        all_ranked(candidates, is_scored()),
        0 <= chosen < top_of(candidates, prefix, prefixes, per_connector).len(),
        candidates.contains(other),
        person_of(prefix, prefixes)(other),
        !top_of(candidates, prefix, prefixes, per_connector).contains(other),
    ensures
        !higher_ranked(other, top_of(candidates, prefix, prefixes, per_connector)[chosen]),
{
    let keep = person_of(prefix, prefixes);
    let bucket = select(candidates, keep);
    let sorted = sorted_by(bucket, rank_order());
    let top = top_of(candidates, prefix, prefixes, per_connector);
    lemma_select(candidates, keep);
    assert forall|i: int| 0 <= i < bucket.len() implies is_scored()(#[trigger] bucket[i]) by {
        assert(bucket.contains(bucket[i]));
        let k = candidates.index_of(bucket[i]);
        assert(is_scored()(candidates[k]));
    }
    lemma_rank_order();
    law_sorting_orders(bucket, rank_order(), is_scored());
    assert(bucket.contains(other));
    lemma_sorted_contains(bucket, rank_order(), other);
    let k = sorted.index_of(other);
    if k < top.len() {
        assert(top[k] == other);
        assert(top.contains(other));
    }
    let before = rank_order();
    assert(sorted[chosen] == top[chosen]);
    assert(!before(sorted[k], sorted[chosen]));
}

/// The candidate is no automated account and belongs to a connector. One whose id has no prefix
/// belongs to the unknown one.
pub open spec fn is_member(prefix: Seq<char>, prefixes: Map<Seq<char>, Seq<char>>) -> spec_fn(
    CandidateView,
) -> bool {
    |candidate: CandidateView|
        !bot_like(candidate) && (if prefixes.contains_key(candidate.id) {
            prefixes[candidate.id] == prefix
        } else {
            prefix == "unknown"@
        })
}

proof fn lemma_members(
    candidates: Seq<CandidateView>,
    prefixes: Map<Seq<char>, Seq<char>>,
    prefix: Seq<char>,
)
    ensures
        select(candidates, person_of(prefix, prefixes)) == candidates.filter(
            is_member(prefix, prefixes),
        ),
{
    assert(person_of(prefix, prefixes) =~= is_member(prefix, prefixes));
    crate::order::law_select(candidates, is_member(prefix, prefixes));
}

proof fn lemma_prefix_list_holds(
    candidates: Seq<CandidateView>,
    prefixes: Map<Seq<char>, Seq<char>>,
    prefix: Seq<char>,
)
    ensures
        prefix_list(candidates, prefixes).contains(prefix) <==> exists|i: int|
            0 <= i < candidates.len() && is_member(prefix, prefixes)(#[trigger] candidates[i]),
    decreases candidates.len(),
{
    if candidates.len() > 0 {
        let rest = candidates.drop_last();
        let last = candidates.len() - 1;
        let member = is_member(prefix, prefixes);
        lemma_prefix_list_holds(rest, prefixes, prefix);
        lemma_prefix_list(rest, prefixes);
        law_insert_text(
            prefix_list(rest, prefixes),
            prefix_of(candidates.last().id, prefixes),
        );
        assert(forall|i: int| 0 <= i < rest.len() ==> rest[i] == candidates[i]);
        assert(candidates[last] == candidates.last());
        if exists|i: int| 0 <= i < rest.len() && member(#[trigger] rest[i]) {
            let i = choose|i: int| 0 <= i < rest.len() && member(#[trigger] rest[i]);
            assert(member(candidates[i]));
        }
        if exists|i: int| 0 <= i < candidates.len() && member(#[trigger] candidates[i]) {
            let i = choose|i: int| 0 <= i < candidates.len() && member(#[trigger] candidates[i]);
            if i < last {
                assert(member(rest[i]));
            }
        }
        if member(candidates.last()) {
            assert(member(candidates[last]));
        }
    }
}

proof fn lemma_filter_all<A>(s: Seq<A>, keep: spec_fn(A) -> bool)
    requires
        forall|i: int| 0 <= i < s.len() ==> keep(#[trigger] s[i]),
    ensures
        s.filter(keep) == s,
    decreases s.len(),
{
    reveal(Seq::filter);
    if s.len() > 0 {
        let rest = s.drop_last();
        assert(forall|i: int| 0 <= i < rest.len() ==> rest[i] == s[i]);
        lemma_filter_all(rest, keep);
        assert(keep(s[s.len() - 1]));
        assert(rest.push(s.last()) =~= s);
    }
}

proof fn lemma_filter_none<A>(s: Seq<A>, keep: spec_fn(A) -> bool)
    requires
        forall|i: int| 0 <= i < s.len() ==> !keep(#[trigger] s[i]),
    ensures
        s.filter(keep) == Seq::<A>::empty(),
    decreases s.len(),
{
    reveal(Seq::filter);
    if s.len() > 0 {
        let rest = s.drop_last();
        assert(forall|i: int| 0 <= i < rest.len() ==> rest[i] == s[i]);
        lemma_filter_none(rest, keep);
        assert(!keep(s[s.len() - 1]));
    }
}

proof fn lemma_tops_of_member(
    candidates: Seq<CandidateView>,
    list: Seq<Seq<char>>,
    prefixes: Map<Seq<char>, Seq<char>>,
    per_connector: int,
    prefix: Seq<char>,
)
    requires
        per_connector >= 0,
        list.no_duplicates(),
    ensures
        tops_of(candidates, list, prefixes, per_connector).filter(is_member(prefix, prefixes)) == (
        if list.contains(prefix) {
            top_of(candidates, prefix, prefixes, per_connector)
        } else {
            Seq::empty()
        }),
    decreases list.len(),
{
    let member = is_member(prefix, prefixes);
    if list.len() > 0 {
        let rest = list.drop_last();
        let last = list.last();
        let before = tops_of(candidates, rest, prefixes, per_connector);
        let top = top_of(candidates, last, prefixes, per_connector);
        assert(rest.no_duplicates());
        lemma_tops_of_member(candidates, rest, prefixes, per_connector, prefix);
        lemma_top_of(candidates, last, prefixes, per_connector);
        Seq::filter_distributes_over_add(before, top, member);
        assert(list[list.len() - 1] == last);
        if prefix == last {
            assert(!rest.contains(prefix)) by {
                if rest.contains(prefix) {
                    let k = rest.index_of(prefix);
                    assert(list[k] == list[list.len() - 1]);
                }
            }
            lemma_filter_all(top, member);
            assert(Seq::<CandidateView>::empty() + top =~= top);
        } else {
            lemma_filter_none(top, member);
            assert(before.filter(member) + Seq::<CandidateView>::empty() =~= before.filter(member));
            if rest.contains(prefix) {
                let k = rest.index_of(prefix);
                assert(list[k] == prefix);
            }
            if list.contains(prefix) {
                let k = list.index_of(prefix);
                assert(rest[k] == prefix);
            }
        }
    } else {
        reveal(Seq::filter);
    }
}

/// Of each connector the sample holds all the candidates that are no automated accounts, or as many
/// of them as it may, where there are more. They are in the order of their ranks, and none that was
/// left out ranks above one that was taken.
pub proof fn law_sample_is_complete(
    candidates: Seq<CandidateView>,
    prefixes: Map<Seq<char>, Seq<char>>,
    per_connector: int,
    prefix: Seq<char>,
)
    requires
        per_connector >= 0,
        all_ranked(candidates, is_scored()),
    ensures
        ({
            let member = is_member(prefix, prefixes);
            let all = candidates.filter(member);
            let taken = sample(candidates, prefixes, per_connector).filter(member);
            &&& taken.len() == vstd::math::min(all.len() as int, per_connector)
            &&& all.len() <= per_connector ==> taken.to_multiset() == all.to_multiset()
            &&& forall|i: int|
                0 <= i < taken.len() ==> all.contains(#[trigger] taken[i])
            &&& forall|i: int, j: int|
                0 <= i < j < taken.len() ==> !higher_ranked(
                    #[trigger] taken[j],
                    #[trigger] taken[i],
                )
            &&& forall|i: int, other: CandidateView|
                0 <= i < taken.len() && #[trigger] all.contains(other) && !taken.contains(other)
                    ==> !higher_ranked(other, #[trigger] taken[i])
        }),
{
    let member = is_member(prefix, prefixes);
    let all = candidates.filter(member);
    let list = prefix_list(candidates, prefixes);
    lemma_prefix_list(candidates, prefixes);
    assert(list.no_duplicates()) by {
        assert forall|i: int, j: int|
            0 <= i < list.len() && 0 <= j < list.len() && i != j implies list[i] != list[j] by {
            crate::text::law_order_irreflexive(list[i]);
        }
    }
    lemma_members(candidates, prefixes, prefix);
    lemma_prefix_list_holds(candidates, prefixes, prefix);
    lemma_tops_of_member(candidates, list, prefixes, per_connector, prefix);
    let taken = sample(candidates, prefixes, per_connector).filter(member);
    let sorted = sorted_by(all, rank_order());
    crate::order::law_sorting_keeps_items(all, rank_order());
    lemma_select(candidates, person_of(prefix, prefixes));
    assert forall|i: int| 0 <= i < all.len() implies is_scored()(#[trigger] all[i]) by {
        assert(all.contains(all[i]));
        let k = candidates.index_of(all[i]);
        assert(is_scored()(candidates[k]));
    }
    lemma_rank_order();
    law_sorting_orders(all, rank_order(), is_scored());
    let before = rank_order();
    if !list.contains(prefix) {
        assert forall|i: int| 0 <= i < candidates.len() implies !member(#[trigger] candidates[i]) by {}
        lemma_filter_none(candidates, member);
    }
    assert(taken == first_items(sorted, per_connector)) by {
        if !list.contains(prefix) {
            assert(sorted =~= Seq::<CandidateView>::empty());
            assert(taken =~= first_items(sorted, per_connector));
        }
    }
    assert forall|i: int| 0 <= i < taken.len() implies all.contains(#[trigger] taken[i]) by {
        assert(sorted[i] == taken[i]);
        assert(sorted.contains(taken[i]));
        lemma_sorted_contains(all, before, taken[i]);
    }
    assert forall|i: int, j: int| 0 <= i < j < taken.len() implies !higher_ranked(
        #[trigger] taken[j],
        #[trigger] taken[i],
    ) by {
        assert(!before(sorted[j], sorted[i]));
    }
    assert forall|i: int, other: CandidateView|
        0 <= i < taken.len() && #[trigger] all.contains(other) && !taken.contains(
            other,
        ) implies !higher_ranked(other, #[trigger] taken[i]) by {
        lemma_sorted_contains(all, before, other);
        let k = sorted.index_of(other);
        if k < taken.len() {
            assert(taken[k] == other);
        }
        assert(!before(sorted[k], sorted[i]));
    }
}

/// The connectors of a sample come in the order of their prefixes, one after the other.
pub proof fn law_sample_order(
    candidates: Seq<CandidateView>,
    prefixes: Map<Seq<char>, Seq<char>>,
    per_connector: int,
    i: int,
    j: int,
)
    requires
        per_connector >= 0,
        0 <= i < j < sample(candidates, prefixes, per_connector).len(),
    ensures
        ({
            let chosen = sample(candidates, prefixes, per_connector);
            let a = prefix_of(chosen[i].id, prefixes);
            let b = prefix_of(chosen[j].id, prefixes);
            a == b || crate::text::text_less(a, b)
        }),
{
    lemma_prefix_list(candidates, prefixes);
    lemma_tops_order(
        candidates,
        prefix_list(candidates, prefixes),
        prefixes,
        per_connector,
        i,
        j,
    );
}

proof fn lemma_tops_order(
    candidates: Seq<CandidateView>,
    list: Seq<Seq<char>>,
    prefixes: Map<Seq<char>, Seq<char>>,
    per_connector: int,
    i: int,
    j: int,
)
    requires
        per_connector >= 0,
        ascending(list),
        0 <= i <= j < tops_of(candidates, list, prefixes, per_connector).len(),
    ensures
        ({
            let chosen = tops_of(candidates, list, prefixes, per_connector);
            let a = prefix_of(chosen[i].id, prefixes);
            let b = prefix_of(chosen[j].id, prefixes);
            list.contains(b) && list.contains(a) && (a == b || crate::text::text_less(a, b))
        }),
    decreases list.len(),
{
    let rest = list.drop_last();
    let before = tops_of(candidates, rest, prefixes, per_connector);
    let top = top_of(candidates, list.last(), prefixes, per_connector);
    let chosen = tops_of(candidates, list, prefixes, per_connector);
    assert(forall|k: int| 0 <= k < rest.len() ==> rest[k] == list[k]);
    lemma_top_of(candidates, list.last(), prefixes, per_connector);
    assert(list[list.len() - 1] == list.last());
    assert forall|a: int, b: int| 0 <= a < b < rest.len() implies crate::text::text_less(
        rest[a],
        rest[b],
    ) by {
        assert(rest[a] == list[a] && rest[b] == list[b]);
    }
    if i < before.len() {
        lemma_tops_order(
            candidates,
            rest,
            prefixes,
            per_connector,
            i,
            if j < before.len() {
                j
            } else {
                i
            },
        );
        let a = prefix_of(chosen[i].id, prefixes);
        assert(chosen[i] == before[i]);
        let k = rest.index_of(a);
        assert(list[k] == a);
        if j < before.len() {
            assert(chosen[j] == before[j]);
            let m = rest.index_of(prefix_of(before[j].id, prefixes));
            assert(list[m] == prefix_of(before[j].id, prefixes));
        } else {
            assert(chosen[j] == top[j - before.len()]);
            assert(crate::text::text_less(list[k], list[list.len() - 1]));
        }
    } else {
        assert(chosen[i] == top[i - before.len()]);
        assert(chosen[j] == top[j - before.len()]);
    }
}

} // verus!
