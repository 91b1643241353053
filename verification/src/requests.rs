//! Answers to requests for contacts.

use crate::context::{earlier, first_items, is_earlier};
use crate::errors::ContactError;
use crate::listing::{
    after_recent, after_score, behind_recent, behind_score, bot_like, filtered_candidates,
    is_person, matches_query, matching, opt_cursor, paginate_recent_candidates, preview_of,
    rank_order, ranked, recent_page, reject_bot_candidates, score_page, searched,
    searched_candidates, CandidatePage, ContactCursor, CursorView, PageView,
};
use crate::models::{
    Candidate, CandidateView, ConnectorContact, ContactContext, ContextView, SavedContact,
    SavedView, DEFAULT_LIMIT, GOOGLE_CONTEXT_LIMIT, MAX_LIMIT, TELEGRAM_CONTEXT_LIMIT,
};
use crate::names::{is_telegram_contact_id, telegram_id};
use crate::order::{
    law_sorting_orders, lemma_select, lemma_sorted_contains, select, sorted_by, stable_sort, views,
    weak_order, Order,
};
use crate::recent::{recency_order, sort_recent_candidates};
use crate::saved::{
    enrich_saved_contact_avatars, filtered_saved_contacts, law_known_avatars,
    law_saved_found_hold_query, matching_saved, with_known_avatars,
};
use crate::text::{
    as_text, clean_opt, cleaned, holds_text, lowered, opt_str, opt_text, same_text, starts, starts_with, texts,
    to_lower,
};
use crate::text_map::TextMap;
use vstd::prelude::*;
use vstd::string::*;

verus! {

/// A request for a list of contacts.
#[derive(Debug)]
pub struct ContactListParams {
    pub limit: Option<usize>,
    pub query: Option<String>,
    pub cursor: Option<String>,
    pub connector: Option<String>,
    pub sort: Option<String>,
}

/// A number kept between two others.
pub open spec fn clamped(n: usize, low: usize, high: usize) -> usize {
    if n < low {
        low
    } else if n > high {
        high
    } else {
        n
    }
}

fn clamp(n: usize, low: usize, high: usize) -> (r: usize)
    ensures
        r == clamped(n, low, high),
{
    if n < low {
        low
    } else if n > high {
        high
    } else {
        n
    }
}

/// The limit that is asked for, or another one.
pub open spec fn limit_or(limit: Option<usize>, default_limit: usize, highest: usize) -> usize {
    clamped(
        match limit {
            Some(limit) => limit,
            None => default_limit,
        },
        1,
        highest,
    )
}

/// How many contacts are listed.
pub fn contact_list_limit(limit: Option<usize>) -> (r: usize)
    ensures
        r == limit_or(limit, DEFAULT_LIMIT, MAX_LIMIT),
{
    match limit {
        Some(limit) => clamp(limit, 1, MAX_LIMIT),
        None => clamp(DEFAULT_LIMIT, 1, MAX_LIMIT),
    }
}

/// How many context items are shown.
pub fn contact_context_limit(limit: Option<usize>) -> (r: usize)
    ensures
        r == limit_or(limit, TELEGRAM_CONTEXT_LIMIT, MAX_LIMIT),
{
    match limit {
        Some(limit) => clamp(limit, 1, MAX_LIMIT),
        None => clamp(TELEGRAM_CONTEXT_LIMIT, 1, MAX_LIMIT),
    }
}

/// How many contacts are inferred.
pub fn contact_infer_limit(limit: Option<usize>) -> (r: usize)
    ensures
        r == limit_or(limit, DEFAULT_LIMIT, DEFAULT_LIMIT),
{
    match limit {
        Some(limit) => clamp(limit, 1, DEFAULT_LIMIT),
        None => clamp(DEFAULT_LIMIT, 1, DEFAULT_LIMIT),
    }
}

/// Every limit is at least one and at most the highest, and is the one that is asked for where that
/// lies between them.
pub proof fn law_limits(limit: Option<usize>, default_limit: usize, highest: usize)
    requires
        1 <= default_limit <= highest,
    ensures
        1 <= limit_or(limit, default_limit, highest) <= highest,
        match limit {
            Some(n) => 1 <= n <= highest ==> limit_or(limit, default_limit, highest) == n,
            None => limit_or(limit, default_limit, highest) == default_limit,
        },
{
}

pub open spec fn is_word(value: Option<Seq<char>>, word: Seq<char>) -> bool {
    match value {
        Some(value) => lowered(value) == word,
        None => false,
    }
}

/// The request is for the recent contacts of Telegram.
pub open spec fn asks_for_recent(params: ContactListParams) -> bool {
    is_word(opt_text(params.connector), "telegram"@) && is_word(opt_text(params.sort), "recent"@)
}

fn is_the_word(value: &Option<String>, word: &str) -> (r: bool)
    ensures
        r == is_word(opt_text(*value), word@),
{
    match value {
        Some(value) => same_text(to_lower(value.as_str()).as_str(), word),
        None => false,
    }
}

/// Whether a request is for the recent contacts of Telegram.
pub fn is_recent_telegram_request(params: &ContactListParams) -> (r: bool)
    ensures
        r == asks_for_recent(*params),
{
    is_the_word(&params.connector, "telegram") && is_the_word(&params.sort, "recent")
}

/// Whether a refresh is answered by a search.
pub fn refresh_searches(params: &ContactListParams) -> (r: bool)
    ensures
        r == cleaned(opt_text(params.query)) is Some,
{
    clean_opt(as_text(&params.query)).is_some()
}

/// The place in a list that a request tells: none where its text is blank. `decoded` is what the
/// text was decoded to, where it could be.
pub fn parse_contact_cursor(cursor: Option<&str>, decoded: Option<ContactCursor>) -> (r: Result<
    Option<ContactCursor>,
    ContactError,
>)
    ensures
        match r {
            Ok(place) => opt_cursor(place) == (if cleaned(opt_str(cursor)) is None {
                None
            } else {
                opt_cursor(decoded)
            }) && (cleaned(opt_str(cursor)) is None || decoded is Some),
            Err(error) => error == ContactError::InvalidCursor && cleaned(opt_str(cursor)) is Some
                && decoded is None,
        },
{
    if clean_opt(cursor).is_none() {
        return Ok(None);
    }
    match decoded {
        Some(place) => Ok(Some(place)),
        None => Err(ContactError::InvalidCursor),
    }
}

/// What the user is shown.
#[derive(Debug)]
pub struct ContactsSnapshot {
    pub contacts: Vec<SavedContact>,
    pub candidates: Vec<ConnectorContact>,
    pub ready: bool,
    pub limit: usize,
    pub returned_count: usize,
    pub candidate_count: usize,
    pub has_more: bool,
    pub next_cursor: Option<ContactCursor>,
}

pub ghost struct SnapshotView {
    pub contacts: Seq<SavedView>,
    pub page: PageView,
    pub ready: bool,
    pub limit: usize,
    pub returned_count: int,
}

impl View for ContactsSnapshot {
    type V = SnapshotView;

    open spec fn view(&self) -> SnapshotView {
        SnapshotView {
            contacts: views(self.contacts@),
            page: PageView {
                candidates: views(self.candidates@),
                candidate_count: self.candidate_count as int,
                has_more: self.has_more,
                next_cursor: opt_cursor(self.next_cursor),
            },
            ready: self.ready,
            limit: self.limit,
            returned_count: self.returned_count as int,
        }
    }
}

/// A snapshot of a page.
pub open spec fn snapshot(
    contacts: Seq<SavedView>,
    page: PageView,
    ready: bool,
    limit: usize,
) -> SnapshotView {
    SnapshotView { contacts, page, ready, limit, returned_count: page.candidates.len() as int }
}

/// The saved contacts that are shown: those that match the query, with the avatars that are known.
pub open spec fn shown_saved(
    saved: Seq<SavedView>,
    query: Option<Seq<char>>,
    avatars: Map<Seq<char>, Seq<char>>,
) -> Seq<SavedView> {
    with_known_avatars(matching_saved(saved, query), avatars)
}

/// The page that a list shows.
pub open spec fn listed_page(
    recent: bool,
    candidates: Seq<CandidateView>,
    query: Option<Seq<char>>,
    limit: usize,
    cursor: Option<CursorView>,
    ids: Map<Seq<char>, Seq<char>>,
) -> PageView {
    if recent {
        recent_page(
            select(sorted_by(candidates, recency_order()), is_person()),
            limit as int,
            cursor,
            ids,
        )
    } else {
        score_page(matching(ranked(candidates), query), limit as int, cursor, ids)
    }
}

/// The place belongs to the list that is asked for.
pub open spec fn cursor_fits(recent: bool, cursor: Option<CursorView>) -> bool {
    match cursor {
        Some(CursorView::Score { .. }) => !recent,
        Some(CursorView::Recent { .. }) => recent,
        None => true,
    }
}

fn snapshot_of(
    contacts: Vec<SavedContact>,
    page: CandidatePage,
    ready: bool,
    limit: usize,
) -> (r: ContactsSnapshot)
    ensures
        r@ == snapshot(views(contacts@), page@, ready, limit),
{
    let returned_count = page.candidates.len();
    ContactsSnapshot {
        contacts,
        candidates: page.candidates,
        ready,
        limit,
        returned_count,
        candidate_count: page.candidate_count,
        has_more: page.has_more,
        next_cursor: page.next_cursor,
    }
}

/// Lists saved contacts and candidates. `candidates` are the recent ones of Telegram for a request
/// that asks for these, and all that were collected for any other. `ready` tells whether the caches
/// they come from are complete; a list for a query is always ready, unless it is of recent contacts.
pub fn handle_contacts_list(
    params: &ContactListParams,
    saved: Vec<SavedContact>,
    avatars: &TextMap<String>,
    candidates: Vec<Candidate>,
    ready: bool,
    cursor: Option<ContactCursor>,
    ids: &TextMap<String>,
) -> (r: Result<ContactsSnapshot, ContactError>)
    ensures
        ({
            let recent = asks_for_recent(*params);
            let query = cleaned(opt_text(params.query));
            let limit = limit_or(params.limit, DEFAULT_LIMIT, MAX_LIMIT);
            match r {
                Ok(shown) => cursor_fits(recent, opt_cursor(cursor)) && shown@ == snapshot(
                    shown_saved(views(saved@), query, avatars@),
                    listed_page(
                        recent,
                        views(candidates@),
                        query,
                        limit,
                        opt_cursor(cursor),
                        ids@,
                    ),
                    if recent || query is None {
                        ready
                    } else {
                        true
                    },
                    limit,
                ),
                Err(error) => !cursor_fits(recent, opt_cursor(cursor)) && error == (if recent {
                    ContactError::RecentCursorMismatch
                } else {
                    ContactError::ScoreCursorMismatch
                }),
            }
        }),
{
    let limit = contact_list_limit(params.limit);
    let query = clean_opt(as_text(&params.query));
    let shown = enrich_saved_contact_avatars(filtered_saved_contacts(saved, query), avatars);
    if is_recent_telegram_request(params) {
        let mut candidates = sort_recent_candidates(candidates);
        reject_bot_candidates(&mut candidates);
        match paginate_recent_candidates(candidates, limit, cursor, ids) {
            Ok(page) => Ok(snapshot_of(shown, page, ready, limit)),
            Err(error) => Err(error),
        }
    } else {
        match filtered_candidates(candidates, limit, cursor, query, ids) {
            Ok(page) => Ok(snapshot_of(shown, page, query.is_some() || ready, limit)),
            Err(error) => Err(error),
        }
    }
}

/// Searches saved contacts and candidates.
pub fn handle_contacts_search(
    params: &ContactListParams,
    saved: Vec<SavedContact>,
    avatars: &TextMap<String>,
    candidates: Vec<Candidate>,
    cursor: Option<ContactCursor>,
    ids: &TextMap<String>,
) -> (r: Result<ContactsSnapshot, ContactError>)
    ensures
        ({
            let query = cleaned(opt_text(params.query));
            let limit = limit_or(params.limit, DEFAULT_LIMIT, MAX_LIMIT);
            match r {
                Ok(shown) => cursor_fits(false, opt_cursor(cursor)) && shown@ == snapshot(
                    shown_saved(views(saved@), query, avatars@),
                    score_page(
                        searched(views(candidates@), query),
                        limit as int,
                        opt_cursor(cursor),
                        ids@,
                    ),
                    true,
                    limit,
                ),
                Err(error) => !cursor_fits(false, opt_cursor(cursor)) && error
                    == ContactError::ScoreCursorMismatch,
            }
        }),
{
    let limit = contact_list_limit(params.limit);
    let query = clean_opt(as_text(&params.query));
    let shown = enrich_saved_contact_avatars(filtered_saved_contacts(saved, query), avatars);
    match searched_candidates(candidates, limit, cursor, query, ids) {
        Ok(page) => Ok(snapshot_of(shown, page, true, limit)),
        Err(error) => Err(error),
    }
}

/// A list never shows more candidates than its limit, and more are announced exactly where there
/// are more.
pub proof fn law_list_is_bounded(
    recent: bool,
    candidates: Seq<CandidateView>,
    query: Option<Seq<char>>,
    limit: Option<usize>,
    cursor: Option<CursorView>,
    ids: Map<Seq<char>, Seq<char>>,
)
    ensures
        ({
            let shown = limit_or(limit, DEFAULT_LIMIT, MAX_LIMIT);
            let page = listed_page(recent, candidates, query, shown, cursor, ids);
            &&& page.candidates.len() <= shown <= MAX_LIMIT
            &&& page.has_more == (page.next_cursor is Some)
            &&& page.has_more ==> page.candidates.len() == shown
        }),
{
}

/// How many items a candidate may add to the context of a request.
pub open spec fn context_cap(id: Seq<char>, limit: int) -> int {
    let cap: int = if telegram_id(id) {
        TELEGRAM_CONTEXT_LIMIT as int
    } else {
        GOOGLE_CONTEXT_LIMIT as int
    };
    if cap < limit {
        cap
    } else {
        limit
    }
}

/// The candidate is one of those that are asked for. Where none is asked for, all are.
pub open spec fn is_wanted(id: Seq<char>, contact_ids: Seq<Seq<char>>) -> bool {
    contact_ids.len() == 0 || contact_ids.contains(id)
}

/// The context of the candidates that are asked for, in the order of the candidates.
pub open spec fn wanted_context(
    candidates: Seq<CandidateView>,
    contact_ids: Seq<Seq<char>>,
    limit: int,
) -> Seq<ContextView>
    decreases candidates.len(),
{
    if candidates.len() == 0 {
        Seq::empty()
    } else {
        let before = wanted_context(candidates.drop_last(), contact_ids, limit);
        let candidate = candidates.last();
        if is_wanted(candidate.id, contact_ids) {
            before + first_items(candidate.context, context_cap(candidate.id, limit))
        } else {
            before
        }
    }
}

/// A candidate that is asked for has an id and some context.
pub open spec fn has_context(candidates: Seq<CandidateView>, id: Seq<char>) -> bool {
    exists|i: int|
        0 <= i < candidates.len() && (#[trigger] candidates[i]).id == id
            && candidates[i].context.len() > 0
}

/// The ids that connectors are asked for context of: all but those of Telegram users, known by
/// name, that have some.
pub open spec fn open_ids(candidates: Seq<CandidateView>, contact_ids: Seq<Seq<char>>) -> Seq<
    Seq<char>,
> {
    select(
        contact_ids,
        |id: Seq<char>| !starts(id, "telegram@"@) || !has_context(candidates, id),
    )
}

pub struct ByTime;

impl Order<ContactContext> for ByTime {
    open spec fn precedes(a: ContextView, b: ContextView) -> bool {
        earlier(b.timestamp_ms, a.timestamp_ms)
    }

    fn is_before(a: &ContactContext, b: &ContactContext) -> (r: bool) {
        is_earlier(b.timestamp_ms, a.timestamp_ms)
    }
}

pub open spec fn time_order() -> spec_fn(ContextView, ContextView) -> bool {
    |a: ContextView, b: ContextView| <ByTime as Order<ContactContext>>::precedes(a, b)
}

/// The latest context: what candidates hold and what connectors tell, the latest first.
pub open spec fn latest_context(
    candidates: Seq<CandidateView>,
    contact_ids: Seq<Seq<char>>,
    told: Seq<ContextView>,
    limit: int,
) -> Seq<ContextView> {
    first_items(
        sorted_by(wanted_context(candidates, contact_ids, limit) + told, time_order()),
        limit,
    )
}

/// Whether an id stands in a list.
fn list_has(list: &Vec<String>, id: &str) -> (r: bool)
    ensures
        r == texts(list@).contains(id@),
{
    let ghost all = texts(list@);
    for i in 0..list.len()
        invariant
            all == texts(list@),
            forall|j: int| 0 <= j < i ==> #[trigger] all[j] != id@,
    {
        assert(all[i as int] == list@[i as int]@);
        if same_text(list[i].as_str(), id) {
            assert(all.contains(id@));
            return true;
        }
    }
    false
}

/// Whether there is anything to show the context of.
pub fn checked_context_ids(contact_ids: &Vec<String>) -> (r: Result<(), ContactError>)
    ensures
        match r {
            Ok(_) => contact_ids@.len() > 0,
            Err(error) => error == ContactError::NoContextIds && contact_ids@.len() == 0,
        },
{
    if contact_ids.len() == 0 {
        Err(ContactError::NoContextIds)
    } else {
        Ok(())
    }
}

/// The ids that connectors are asked for context of.
pub fn connector_context_ids(candidates: &Vec<Candidate>, contact_ids: &Vec<String>) -> (r: Vec<
    String,
>)
    ensures
        texts(r@) == open_ids(views(candidates@), texts(contact_ids@)),
{
    let ghost all = views(candidates@);
    let ghost wanted = texts(contact_ids@);
    let ghost keep = |id: Seq<char>| !starts(id, "telegram@"@) || !has_context(all, id);
    let mut out: Vec<String> = Vec::new();
    assert(texts(out@) =~= select(wanted.take(0), keep));
    for i in 0..contact_ids.len()
        invariant
            all == views(candidates@),
            wanted == texts(contact_ids@),
            keep == (|id: Seq<char>| !starts(id, "telegram@"@) || !has_context(all, id)),
            texts(out@) == select(wanted.take(i as int), keep),
    {
        assert(wanted.take(i + 1).drop_last() =~= wanted.take(i as int));
        assert(wanted.take(i + 1).last() == contact_ids@[i as int]@);
        let id = contact_ids[i].as_str();
        let mut enriched = false;
        for k in 0..candidates.len()
            invariant
                all == views(candidates@),
                enriched == exists|j: int|
                    0 <= j < k && (#[trigger] all[j]).id == id@ && all[j].context.len() > 0,
        {
            assert(all[k as int] == candidates@[k as int]@);
            assert(all[k as int].context.len() == candidates@[k as int].context@.len());
            if same_text(candidates[k].id.as_str(), id) && candidates[k].context.len() > 0 {
                enriched = true;
            }
        }
        if !starts_with(id, "telegram@") || !enriched {
            let ghost before = texts(out@);
            out.push(contact_ids[i].clone());
            assert(texts(out@) =~= before.push(contact_ids@[i as int]@));
        }
    }
    assert(wanted.take(wanted.len() as int) =~= wanted);
    out
}

/// The latest context of contacts. `candidates` are the ranked ones with all their context, `told`
/// is what connectors tell.
pub fn contact_contexts(
    candidates: Vec<Candidate>,
    contact_ids: &Vec<String>,
    told: Vec<ContactContext>,
    limit: usize,
) -> (r: Vec<ContactContext>)
    ensures
        views(r@) == latest_context(
            views(candidates@),
            texts(contact_ids@),
            views(told@),
            limit as int,
        ),
{
    let ghost all = views(candidates@);
    let ghost wanted = texts(contact_ids@);
    assert(wanted.len() == contact_ids@.len());
    let mut contexts: Vec<ContactContext> = Vec::new();
    assert(views(contexts@) =~= wanted_context(all.take(0), wanted, limit as int));
    for candidate in it: candidates
        invariant
            views(it.seq()) == all,
            wanted == texts(contact_ids@),
            wanted.len() == contact_ids@.len(),
            views(contexts@) == wanted_context(all.take(it.index()), wanted, limit as int),
    {
        let ghost item = candidate@;
        proof {
            assert(all.take(it.index() + 1).drop_last() =~= all.take(it.index()));
            assert(all.take(it.index() + 1).last() == item);
        }
        if contact_ids.len() == 0 || list_has(contact_ids, candidate.id.as_str()) {
            let full = if is_telegram_contact_id(candidate.id.as_str()) {
                TELEGRAM_CONTEXT_LIMIT
            } else {
                GOOGLE_CONTEXT_LIMIT
            };
            let cap = if full < limit {
                full
            } else {
                limit
            };
            let mut own_context = candidate.context;
            let ghost whole = views(own_context@);
            own_context.truncate(cap);
            assert(views(own_context@) =~= first_items(whole, cap as int));
            let ghost before = views(contexts@);
            let ghost added = views(own_context@);
            contexts.append(&mut own_context);
            assert(views(contexts@) =~= before + added);
        }
    }
    assert(all.take(all.len() as int) =~= all);
    let ghost own_items = views(contexts@);
    let ghost told_items = views(told@);
    let mut told = told;
    contexts.append(&mut told);
    assert(views(contexts@) =~= own_items + told_items);
    let mut sorted = stable_sort::<ContactContext, ByTime>(contexts);
    let ghost whole = views(sorted@);
    sorted.truncate(limit);
    assert(views(sorted@) =~= first_items(whole, limit as int));
    sorted
}

/// The context of contacts holds no more items than its limit, the latest first.
pub proof fn law_latest_context(
    candidates: Seq<CandidateView>,
    contact_ids: Seq<Seq<char>>,
    told: Seq<ContextView>,
    limit: int,
)
    requires
        limit >= 0,
    ensures
        latest_context(candidates, contact_ids, told, limit).len() <= limit,
        forall|i: int, j: int|
            0 <= i < j < latest_context(candidates, contact_ids, told, limit).len() ==> !earlier(
                (#[trigger] latest_context(candidates, contact_ids, told, limit)[i]).timestamp_ms,
                (#[trigger] latest_context(candidates, contact_ids, told, limit)[j]).timestamp_ms,
            ),
{
    let all = wanted_context(candidates, contact_ids, limit) + told;
    let before = time_order();
    let sorted = sorted_by(all, before);
    assert(weak_order(before, |item: ContextView| true));
    law_sorting_orders(all, before, |item: ContextView| true);
    let shown = latest_context(candidates, contact_ids, told, limit);
    assert forall|i: int, j: int| 0 <= i < j < shown.len() implies !earlier(
        (#[trigger] shown[i]).timestamp_ms,
        (#[trigger] shown[j]).timestamp_ms,
    ) by {
        assert(shown[i] == sorted[i] && shown[j] == sorted[j]);
        assert(!before(sorted[j], sorted[i]));
    }
}

/// The snapshot after contacts were inferred: it shows the candidates that they were inferred from.
pub fn with_inferred_candidates(listed: ContactsSnapshot, candidates: Vec<ConnectorContact>) -> (r:
    ContactsSnapshot)
    ensures
        r@ == (SnapshotView {
            page: PageView { candidates: views(candidates@), ..listed@.page },
            ..listed@
        }),
{
    let mut listed = listed;
    listed.candidates = candidates;
    listed
}

/// A candidate that a list shows was collected, is no automated account, and matches the query,
/// unless the list is of recent contacts.
pub proof fn law_listed_are_people(
    recent: bool,
    candidates: Seq<CandidateView>,
    query: Option<Seq<char>>,
    limit: usize,
    cursor: Option<CursorView>,
    ids: Map<Seq<char>, Seq<char>>,
    index: int,
)
    requires
        0 <= index < listed_page(recent, candidates, query, limit, cursor, ids).candidates.len(),
    ensures
        exists|shown: CandidateView|
            candidates.contains(shown) && !bot_like(shown) && listed_page(
                recent,
                candidates,
                query,
                limit,
                cursor,
                ids,
            ).candidates[index] == #[trigger] preview_of(shown, ids) && (!recent ==> match query {
                Some(query) => matches_query(query)(shown),
                None => true,
            }),
{
    let page = listed_page(recent, candidates, query, limit, cursor, ids);
    let people = if recent {
        select(sorted_by(candidates, recency_order()), is_person())
    } else {
        matching(ranked(candidates), query)
    };
    let rest = if recent {
        behind_recent(people, cursor)
    } else {
        behind_score(people, cursor)
    };
    let shown = rest[index];
    assert(page.candidates[index] == preview_of(shown, ids));
    assert(rest.contains(shown));
    assert(people.contains(shown)) by {
        if let Some(place) = cursor {
            if recent {
                lemma_select(
                    people,
                    |candidate: CandidateView| after_recent(candidate, place),
                );
            } else {
                lemma_select(people, |candidate: CandidateView| after_score(candidate, place));
            }
        }
    }
    if recent {
        lemma_select(sorted_by(candidates, recency_order()), is_person());
        lemma_sorted_contains(candidates, recency_order(), shown);
    } else {
        if let Some(query) = query {
            lemma_select(ranked(candidates), matches_query(query));
        }
        lemma_sorted_contains(select(candidates, is_person()), rank_order(), shown);
        lemma_select(candidates, is_person());
    }
}

/// The context that a candidate who is asked for adds: its first items, a hundred at most for a
/// Telegram contact and ten for any other, and no more than the limit.
pub open spec fn own_items(limit: int) -> spec_fn(CandidateView) -> Seq<ContextView> {
    |candidate: CandidateView|
        {
            let cap: int = if starts(candidate.id, "telegram@"@) || starts(
                candidate.id,
                "telegram-user-id@"@,
            ) {
                100
            } else {
                10
            };
            candidate.context.take(
                vstd::math::min(candidate.context.len() as int, vstd::math::min(cap, limit)),
            )
        }
}

/// The candidate is asked for, by its id or because no id is given.
pub open spec fn asked_for(contact_ids: Seq<Seq<char>>) -> spec_fn(CandidateView) -> bool {
    |candidate: CandidateView| contact_ids.len() == 0 || contact_ids.contains(candidate.id)
}

/// One item is not earlier than another. An item without a time is earlier than any with one.
pub open spec fn not_earlier(a: ContextView, b: ContextView) -> bool {
    match (a.timestamp_ms, b.timestamp_ms) {
        (Some(x), Some(y)) => x >= y,
        (None, Some(_)) => false,
        (_, None) => true,
    }
}

proof fn lemma_wanted_context(
    candidates: Seq<CandidateView>,
    contact_ids: Seq<Seq<char>>,
    limit: int,
)
    requires
        limit >= 0,
    ensures
        wanted_context(candidates, contact_ids, limit) == candidates.filter(
            asked_for(contact_ids),
        ).map_values(own_items(limit)).flatten(),
    decreases candidates.len(),
{
    reveal(Seq::filter);
    let wanted = asked_for(contact_ids);
    let items = own_items(limit);
    if candidates.len() > 0 {
        let rest = candidates.drop_last();
        let candidate = candidates.last();
        lemma_wanted_context(rest, contact_ids, limit);
        if wanted(candidate) {
            let before = rest.filter(wanted).map_values(items);
            assert(candidates.filter(wanted).map_values(items) =~= before.push(items(candidate)));
            before.lemma_flatten_push(items(candidate));
            assert(first_items(candidate.context, context_cap(candidate.id, limit)) =~= items(
                candidate,
            ));
        }
    }
}

/// The context of contacts is taken from all the items of all the candidates that are asked for and
/// from what connectors tell: these in the order of their times, the latest first, as far as the
/// limit goes. Where there are no more than the limit, none is left out.
pub proof fn law_context_is_complete(
    candidates: Seq<CandidateView>,
    contact_ids: Seq<Seq<char>>,
    told: Seq<ContextView>,
    limit: int,
)
    requires
        limit >= 0,
    ensures
        ({
            let all = candidates.filter(asked_for(contact_ids)).map_values(
                own_items(limit),
            ).flatten() + told;
            let shown = latest_context(candidates, contact_ids, told, limit);
            &&& shown.len() == vstd::math::min(all.len() as int, limit)
            &&& all.len() <= limit ==> shown.to_multiset() == all.to_multiset()
            &&& forall|i: int| 0 <= i < shown.len() ==> all.contains(#[trigger] shown[i])
            &&& forall|i: int, j: int|
                0 <= i < j < shown.len() ==> not_earlier(#[trigger] shown[i], #[trigger] shown[j])
            &&& forall|i: int, other: ContextView|
                0 <= i < shown.len() && #[trigger] all.contains(other) && !shown.contains(other)
                    ==> not_earlier(#[trigger] shown[i], other)
        }),
{
    let all = candidates.filter(asked_for(contact_ids)).map_values(own_items(limit)).flatten()
        + told;
    let shown = latest_context(candidates, contact_ids, told, limit);
    let before = time_order();
    let sorted = sorted_by(all, before);
    lemma_wanted_context(candidates, contact_ids, limit);
    crate::order::law_sorting_keeps_items(all, before);
    assert(weak_order(before, |item: ContextView| true));
    law_sorting_orders(all, before, |item: ContextView| true);
    assert(shown == first_items(sorted, limit));
    assert forall|i: int| 0 <= i < shown.len() implies all.contains(#[trigger] shown[i]) by {
        assert(sorted[i] == shown[i]);
        assert(sorted.contains(shown[i]));
        lemma_sorted_contains(all, before, shown[i]);
    }
    assert forall|i: int, j: int| 0 <= i < j < shown.len() implies not_earlier(
        #[trigger] shown[i],
        #[trigger] shown[j],
    ) by {
        assert(!before(sorted[j], sorted[i]));
    }
    assert forall|i: int, other: ContextView|
        0 <= i < shown.len() && #[trigger] all.contains(other) && !shown.contains(
            other,
        ) implies not_earlier(#[trigger] shown[i], other) by {
        lemma_sorted_contains(all, before, other);
        let k = sorted.index_of(other);
        if k < shown.len() {
            assert(shown[k] == other);
        }
        assert(!before(sorted[k], sorted[i]));
    }
}

/// An item among the first ones of a candidate that is asked for is in the context, where there are
/// no more items than the limit.
pub proof fn law_wanted_items_are_shown(
    candidates: Seq<CandidateView>,
    contact_ids: Seq<Seq<char>>,
    told: Seq<ContextView>,
    limit: int,
    i: int,
    k: int,
)
    requires
        limit >= 0,
        (candidates.filter(asked_for(contact_ids)).map_values(own_items(limit)).flatten()
            + told).len() <= limit,
        0 <= i < candidates.len(),
        asked_for(contact_ids)(candidates[i]),
        0 <= k < own_items(limit)(candidates[i]).len(),
    ensures
        latest_context(candidates, contact_ids, told, limit).contains(candidates[i].context[k]),
{
    broadcast use vstd::seq_lib::group_to_multiset_ensures;

    let wanted = asked_for(contact_ids);
    let items = own_items(limit);
    let people = candidates.filter(wanted);
    let parts = people.map_values(items);
    let all = parts.flatten() + told;
    let shown = latest_context(candidates, contact_ids, told, limit);
    law_context_is_complete(candidates, contact_ids, told, limit);
    candidates.lemma_filter_contains(wanted, i);
    let m = people.index_of(candidates[i]);
    assert(parts[m] == items(candidates[i]));
    let item = candidates[i].context[k];
    assert(parts[m][k] == item);
    lemma_flatten_holds(parts, m, k);
    let at = parts.flatten().index_of(item);
    assert(all[at] == item);
    assert(all.to_multiset().contains(item));
    assert(shown.to_multiset().contains(item));
}

proof fn lemma_flatten_holds<A>(parts: Seq<Seq<A>>, m: int, k: int)
    requires
        0 <= m < parts.len(),
        0 <= k < parts[m].len(),
    ensures
        parts.flatten().contains(parts[m][k]),
    decreases parts.len(),
{
    let all = parts.flatten();
    if m == 0 {
        assert(all[k] == parts[0][k]);
    } else {
        let rest = parts.drop_first();
        assert(rest[m - 1] == parts[m]);
        lemma_flatten_holds(rest, m - 1, k);
        let at = rest.flatten().index_of(parts[m][k]);
        assert(all[parts[0].len() + at] == parts[m][k]);
    }
}

/// A list shows thirty contacts unless it is asked for another number from one to a hundred and
/// twenty, a context a hundred items, and an inference takes thirty contacts at most.
pub proof fn law_limits_of_requests(asked: usize)
    ensures
        limit_or(None, DEFAULT_LIMIT, MAX_LIMIT) == 30,
        limit_or(None, TELEGRAM_CONTEXT_LIMIT, MAX_LIMIT) == 100,
        limit_or(None, DEFAULT_LIMIT, DEFAULT_LIMIT) == 30,
        1 <= asked <= 120 ==> limit_or(Some(asked), DEFAULT_LIMIT, MAX_LIMIT) == asked,
        asked > 120 ==> limit_or(Some(asked), DEFAULT_LIMIT, MAX_LIMIT) == 120,
        asked > 120 ==> limit_or(Some(asked), TELEGRAM_CONTEXT_LIMIT, MAX_LIMIT) == 120,
        1 <= asked <= 120 ==> limit_or(Some(asked), TELEGRAM_CONTEXT_LIMIT, MAX_LIMIT) == asked,
        asked > 30 ==> limit_or(Some(asked), DEFAULT_LIMIT, DEFAULT_LIMIT) == 30,
        1 <= asked <= 30 ==> limit_or(Some(asked), DEFAULT_LIMIT, DEFAULT_LIMIT) == asked,
        limit_or(Some(0), DEFAULT_LIMIT, MAX_LIMIT) == 1,
        limit_or(Some(0), TELEGRAM_CONTEXT_LIMIT, MAX_LIMIT) == 1,
        limit_or(Some(0), DEFAULT_LIMIT, DEFAULT_LIMIT) == 1,
{
}

/// A word is asked for whatever its case, and nothing else is taken for it.
pub proof fn law_words_of_requests(value: Seq<char>, word: Seq<char>)
    ensures
        !is_word(None, word),
        is_word(Some(value), word) <==> value.len() == word.len() && forall|i: int|
            0 <= i < value.len() ==> crate::text::lower_char(#[trigger] value[i]) == word[i],
{
    if value.len() == word.len() && forall|i: int|
        0 <= i < value.len() ==> crate::text::lower_char(#[trigger] value[i]) == word[i] {
        assert(lowered(value) =~= word);
    }
    if lowered(value) == word {
        assert forall|i: int| 0 <= i < value.len() implies crate::text::lower_char(
            #[trigger] value[i],
        ) == word[i] by {
            assert(lowered(value)[i] == word[i]);
        }
    }
}

/// The recent contacts of Telegram are asked for by both words.
pub proof fn law_recent_requests(params: ContactListParams)
    ensures
        asks_for_recent(params) ==> params.connector is Some && params.sort is Some && lowered(
            params.connector->0@,
        ) == "telegram"@ && lowered(params.sort->0@) == "recent"@,
        params.connector is Some && params.sort is Some && lowered(params.connector->0@)
            == "telegram"@ && lowered(params.sort->0@) == "recent"@ ==> asks_for_recent(params),
{
}

/// Connectors are asked for the context of every contact but those of Telegram, known by name, that
/// have some already.
pub proof fn law_open_ids(
    candidates: Seq<CandidateView>,
    contact_ids: Seq<Seq<char>>,
    id: Seq<char>,
)
    ensures
        open_ids(candidates, contact_ids).contains(id) <==> contact_ids.contains(id) && !(starts(
            id,
            "telegram@"@,
        ) && exists|i: int|
            0 <= i < candidates.len() && (#[trigger] candidates[i]).id == id
                && candidates[i].context.len() > 0),
        open_ids(candidates, contact_ids).len() <= contact_ids.len(),
{
    let keep = |id: Seq<char>| !starts(id, "telegram@"@) || !has_context(candidates, id);
    lemma_select(contact_ids, keep);
    assert(open_ids(candidates, contact_ids).contains(id) <==> contact_ids.contains(id) && keep(id));
}

/// A list of recent contacts shows the people among the candidates by their last messages, every
/// other list those that match the query by their scores.
pub proof fn law_what_lists_count(
    candidates: Seq<CandidateView>,
    query: Option<Seq<char>>,
    limit: usize,
    cursor: Option<CursorView>,
    ids: Map<Seq<char>, Seq<char>>,
)
    ensures
        listed_page(true, candidates, query, limit, cursor, ids).candidate_count
            == candidates.filter(|c: CandidateView| !bot_like(c)).len(),
        query is None ==> listed_page(
            false,
            candidates,
            query,
            limit,
            cursor,
            ids,
        ).candidate_count == candidates.filter(|c: CandidateView| !bot_like(c)).len(),
        query is Some ==> listed_page(
            false,
            candidates,
            query,
            limit,
            cursor,
            ids,
        ).candidate_count == candidates.filter(
            crate::listing::is_found(query->0),
        ).len(),
{
    broadcast use vstd::seq_lib::group_to_multiset_ensures;

    let person = |c: CandidateView| !bot_like(c);
    assert(is_person() =~= person);
    let by_time = sorted_by(candidates, recency_order());
    crate::order::law_sorting_keeps_items(candidates, recency_order());
    crate::order::lemma_select_multiset(by_time, person);
    crate::order::lemma_select_multiset(candidates, person);
    crate::order::law_select(candidates, person);
    assert(select(by_time, person).len() == select(by_time, person).to_multiset().len());
    assert(select(candidates, person).len() == select(candidates, person).to_multiset().len());
    let people = select(candidates, person);
    crate::order::law_sorting_keeps_items(people, rank_order());
    if let Some(query) = query {
        let keep = matches_query(query);
        let list = ranked(candidates);
        crate::order::lemma_select_multiset(list, keep);
        crate::order::lemma_select_multiset(people, keep);
        assert(select(list, keep).len() == select(list, keep).to_multiset().len());
        assert(select(people, keep).len() == select(people, keep).to_multiset().len());
        crate::listing::lemma_found(candidates, query);
    }
}

/// A place belongs to one kind of list: a place in a ranking to every list but that of recent
/// contacts, a place among recent contacts to that one, and the beginning to any.
pub proof fn law_places_of_lists(place: CursorView)
    ensures
        cursor_fits(true, None) && cursor_fits(false, None),
        cursor_fits(true, Some(place)) <==> place is Recent,
        cursor_fits(false, Some(place)) <==> place is Score,
{
}

/// A snapshot shows what it was made of, and counts the candidates that it shows.
pub proof fn law_snapshot(contacts: Seq<SavedView>, page: PageView, ready: bool, limit: usize)
    ensures
        ({
            let shown = snapshot(contacts, page, ready, limit);
            &&& shown.contacts == contacts
            &&& shown.page == page
            &&& shown.ready == ready
            &&& shown.limit == limit
            &&& shown.returned_count == page.candidates.len()
        }),
{
}

/// The saved contacts that are shown are those that hold the query, in their order, and all of them
/// where there is no query. Of each only the avatar may differ from what is saved.
pub proof fn law_shown_saved(
    saved: Seq<SavedView>,
    query: Seq<char>,
    avatars: Map<Seq<char>, Seq<char>>,
    i: int,
)
    ensures
        ({
            let found = saved.filter(
                |c: SavedView|
                    holds_text(lowered(c.name), lowered(query)) || holds_text(
                        lowered(c.description),
                        lowered(query),
                    ) || exists|i: int|
                        0 <= i < c.contact_ids.len() && holds_text(
                            lowered(#[trigger] c.contact_ids[i]),
                            lowered(query),
                        ),
            );
            let shown = shown_saved(saved, Some(query), avatars);
            let all = shown_saved(saved, None, avatars);
            &&& shown.len() == found.len()
            &&& all.len() == saved.len()
            &&& 0 <= i < found.len() ==> shown[i] == (SavedView {
                avatar: shown[i].avatar,
                ..found[i]
            })
            &&& 0 <= i < saved.len() ==> all[i] == (SavedView { avatar: all[i].avatar, ..saved[i] })
        }),
{
    law_saved_found_hold_query(saved, query);
    law_known_avatars(matching_saved(saved, Some(query)), avatars);
    law_known_avatars(saved, avatars);
}

} // verus!
