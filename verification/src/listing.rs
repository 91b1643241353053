//! Listing candidates: ranking, choosing, showing them page by page.

use crate::context::{earlier, first_items, is_earlier};
use crate::errors::ContactError;
use crate::history::{bot_flag, payload_has_bot_flag};
use crate::models::{
    Candidate, CandidateView, ConnectorContact, ContactDisplay, ContactView, ContextView,
    DisplayView,
};
use crate::names::{
    bot_id, bot_name, contact_id_is_bot_like, is_telegram_contact_id, name_is_bot_like,
    public_username, public_username_from_contact_id, sanitize_public_username, telegram_id,
    username_in_id,
};
use crate::order::{
    all_ranked, distinct_by, insert_by, law_sorting_keeps_items, law_sorting_orders,
    lemma_ordered_unique, lemma_select, lemma_select_end, lemma_select_insert,
    lemma_select_multiset, lemma_select_pairs, lemma_select_sorted, lemma_sorted_contains,
    lemma_sorting_keeps_distinct, pairwise, select, sorted_by, stable_sort, views, weak_order,
    Order,
};
use crate::peer_metadata::or_empty;
use crate::recent::{lemma_recency_order, more_recent, recency_order};
use crate::score::{not_a_number, score_is_less, score_less};
use crate::text::{
    as_text, clean_opt, cleaned, comes_before, contains, first_of, holds_text, joined,
    law_order_irreflexive, law_order_total, law_order_transitive, lowered, opt_str, opt_text,
    same_text, text_less, to_lower,
};
use crate::text_map::{law_values_of_map, lemma_values_are_distinct, lists_values, TextMap};
use vstd::prelude::*;
use vstd::string::*;

verus! {

/// The candidate is an automated account, by its id, its name or its context.
pub open spec fn bot_like(candidate: CandidateView) -> bool {
    ||| bot_id(candidate.id)
    ||| match candidate.name {
        Some(name) => bot_name(name),
        None => false,
    }
    ||| exists|i: int|
        0 <= i < candidate.context.len() && bot_flag((#[trigger] candidate.context[i]).payload)
}

pub open spec fn is_person() -> spec_fn(CandidateView) -> bool {
    |candidate: CandidateView| !bot_like(candidate)
}

/// Candidates are ordered by their scores, the highest first, and by their ids.
pub open spec fn higher_ranked(a: CandidateView, b: CandidateView) -> bool {
    score_less(b.score, a.score) || (!score_less(a.score, b.score) && text_less(a.id, b.id))
}

pub struct ByScore;

impl Order<Candidate> for ByScore {
    open spec fn precedes(a: CandidateView, b: CandidateView) -> bool {
        higher_ranked(a, b)
    }

    fn is_before(a: &Candidate, b: &Candidate) -> (r: bool) {
        score_is_less(b.score, a.score) || (!score_is_less(a.score, b.score) && comes_before(
            a.id.as_str(),
            b.id.as_str(),
        ))
    }
}

pub open spec fn rank_order() -> spec_fn(CandidateView, CandidateView) -> bool {
    |a: CandidateView, b: CandidateView| <ByScore as Order<Candidate>>::precedes(a, b)
}

/// The people among candidates, ranked.
pub open spec fn ranked(candidates: Seq<CandidateView>) -> Seq<CandidateView> {
    sorted_by(select(candidates, is_person()), rank_order())
}

/// The query stands in the id or in the name of a candidate, whatever the case.
pub open spec fn matches_query(query: Seq<char>) -> spec_fn(CandidateView) -> bool {
    |candidate: CandidateView|
        holds_text(lowered(candidate.id), lowered(query)) || holds_text(
            lowered(or_empty(candidate.name)),
            lowered(query),
        )
}

/// The candidates that match a query, or all of them where there is none.
pub open spec fn matching(candidates: Seq<CandidateView>, query: Option<Seq<char>>) -> Seq<
    CandidateView,
> {
    match query {
        Some(query) => select(candidates, matches_query(query)),
        None => candidates,
    }
}

/// A place in a list of candidates: behind the candidate that it tells of.
#[derive(Debug)]
pub enum ContactCursor {
    Score { score_bits: u64, id: String },
    Recent { last_message_at_ms: Option<i128>, id: String },
}

pub ghost enum CursorView {
    Score { score_bits: u64, id: Seq<char> },
    Recent { last_message_at_ms: Option<i128>, id: Seq<char> },
}

impl View for ContactCursor {
    type V = CursorView;

    open spec fn view(&self) -> CursorView {
        match *self {
            ContactCursor::Score { score_bits, id } => CursorView::Score { score_bits, id: id@ },
            ContactCursor::Recent { last_message_at_ms, id } => CursorView::Recent {
                last_message_at_ms,
                id: id@,
            },
        }
    }
}

pub open spec fn opt_cursor(cursor: Option<ContactCursor>) -> Option<CursorView> {
    match cursor {
        Some(cursor) => Some(cursor@),
        None => None,
    }
}

/// The candidate stands behind a place in the list by score.
pub open spec fn after_score(candidate: CandidateView, cursor: CursorView) -> bool {
    match cursor {
        CursorView::Score { score_bits, id } => score_less(candidate.score, score_bits) || (
        !score_less(score_bits, candidate.score) && text_less(id, candidate.id)),
        CursorView::Recent { .. } => false,
    }
}

/// The candidate stands behind a place in the list by recency.
pub open spec fn after_recent(candidate: CandidateView, cursor: CursorView) -> bool {
    match cursor {
        CursorView::Recent { last_message_at_ms, id } => earlier(
            candidate.last_message_at_ms,
            last_message_at_ms,
        ) || (candidate.last_message_at_ms == last_message_at_ms && text_less(id, candidate.id)),
        CursorView::Score { .. } => false,
    }
}

/// The place behind a candidate in the list by score.
pub open spec fn score_cursor(candidate: CandidateView) -> CursorView {
    CursorView::Score { score_bits: candidate.score, id: candidate.id }
}

/// The place behind a candidate in the list by recency.
pub open spec fn recent_cursor(candidate: CandidateView) -> CursorView {
    CursorView::Recent { last_message_at_ms: candidate.last_message_at_ms, id: candidate.id }
}

/// The candidates behind a place, or all of them where there is none.
pub open spec fn behind_score(candidates: Seq<CandidateView>, cursor: Option<CursorView>) -> Seq<
    CandidateView,
> {
    match cursor {
        Some(cursor) => select(candidates, |candidate: CandidateView| after_score(candidate, cursor)),
        None => candidates,
    }
}

pub open spec fn behind_recent(candidates: Seq<CandidateView>, cursor: Option<CursorView>) -> Seq<
    CandidateView,
> {
    match cursor {
        Some(cursor) => select(
            candidates,
            |candidate: CandidateView| after_recent(candidate, cursor),
        ),
        None => candidates,
    }
}

/// One page of a list of candidates.
#[derive(Debug)]
pub struct CandidatePage {
    pub candidates: Vec<ConnectorContact>,
    pub candidate_count: usize,
    pub has_more: bool,
    pub next_cursor: Option<ContactCursor>,
}

pub ghost struct PageView {
    pub candidates: Seq<ContactView>,
    pub candidate_count: int,
    pub has_more: bool,
    pub next_cursor: Option<CursorView>,
}

impl View for CandidatePage {
    type V = PageView;

    open spec fn view(&self) -> PageView {
        PageView {
            candidates: views(self.candidates@),
            candidate_count: self.candidate_count as int,
            has_more: self.has_more,
            next_cursor: opt_cursor(self.next_cursor),
        }
    }
}

/// The name that a candidate can be shown with: none that is its id, nor one that is an id at all.
/// `ids` holds the normalized form of each id that has one.
pub open spec fn safe_name(candidate: CandidateView, ids: Map<Seq<char>, Seq<char>>) -> Option<
    Seq<char>,
> {
    match cleaned(candidate.name) {
        Some(name) => if name == candidate.id || ids.contains_key(name) {
            None
        } else {
            Some(name)
        },
        None => None,
    }
}

/// The username that a candidate can be shown with.
pub open spec fn shown_username(candidate: CandidateView) -> Option<Seq<char>> {
    first_of(
        match candidate.public_username {
            Some(username) => public_username(username),
            None => None,
        },
        username_in_id(candidate.id),
    )
}

/// How a Telegram candidate is shown; others are shown by what their connectors tell.
pub open spec fn display_of(candidate: CandidateView, ids: Map<Seq<char>, Seq<char>>) -> Option<
    DisplayView,
> {
    let name = safe_name(candidate, ids);
    let username = shown_username(candidate);
    let username_label = match username {
        Some(username) => Some("@"@ + username),
        None => None,
    };
    if !telegram_id(candidate.id) {
        None
    } else {
        Some(
            DisplayView {
                label: match first_of(name, username_label) {
                    Some(label) => label,
                    None => "Telegram contact"@,
                },
                name,
                public_username: username,
                username_label,
                unavailable_reason: match (name, username) {
                    (_, Some(_)) => None,
                    (Some(_), None) => Some("no_public_username"@),
                    (None, None) => Some("display_identity_unavailable"@),
                },
            },
        )
    }
}

/// A candidate as a contact.
pub open spec fn contact_of(candidate: CandidateView, ids: Map<Seq<char>, Seq<char>>) -> ContactView {
    ContactView {
        id: candidate.id,
        avatar: candidate.avatar,
        name: candidate.name,
        display: display_of(candidate, ids),
        context: candidate.context,
        score: candidate.score,
        last_message_at_ms: candidate.last_message_at_ms,
    }
}

/// A candidate as a contact in a list: without avatar and context.
pub open spec fn preview_of(candidate: CandidateView, ids: Map<Seq<char>, Seq<char>>) -> ContactView {
    ContactView { avatar: None, context: Seq::empty(), ..contact_of(candidate, ids) }
}

pub open spec fn previews_of(candidates: Seq<CandidateView>, ids: Map<Seq<char>, Seq<char>>) -> Seq<
    ContactView,
> {
    candidates.map_values(|candidate: CandidateView| preview_of(candidate, ids))
}

/// The page of a list that follows a place in it. `rest` is what stands behind that place.
pub open spec fn page_of(
    count: int,
    rest: Seq<CandidateView>,
    limit: int,
    cursor_for: spec_fn(CandidateView) -> CursorView,
    ids: Map<Seq<char>, Seq<char>>,
) -> PageView {
    let shown = first_items(rest, limit);
    PageView {
        candidates: previews_of(shown, ids),
        candidate_count: count,
        has_more: rest.len() > limit,
        next_cursor: if rest.len() > limit && shown.len() > 0 {
            Some(cursor_for(shown.last()))
        } else {
            None
        },
    }
}

/// A page of the list by score.
pub open spec fn score_page(
    candidates: Seq<CandidateView>,
    limit: int,
    cursor: Option<CursorView>,
    ids: Map<Seq<char>, Seq<char>>,
) -> PageView {
    page_of(
        candidates.len() as int,
        behind_score(candidates, cursor),
        limit,
        |candidate: CandidateView| score_cursor(candidate),
        ids,
    )
}

/// A page of the list by recency.
pub open spec fn recent_page(
    candidates: Seq<CandidateView>,
    limit: int,
    cursor: Option<CursorView>,
    ids: Map<Seq<char>, Seq<char>>,
) -> PageView {
    page_of(
        candidates.len() as int,
        behind_recent(candidates, cursor),
        limit,
        |candidate: CandidateView| recent_cursor(candidate),
        ids,
    )
}

/// Whether a candidate is an automated account.
pub fn candidate_is_bot_like(candidate: &Candidate) -> (r: bool)
    ensures
        r == bot_like(candidate@),
{
    if contact_id_is_bot_like(candidate.id.as_str()) {
        return true;
    }
    if let Some(name) = &candidate.name {
        if name_is_bot_like(name.as_str()) {
            return true;
        }
    }
    let ghost context = candidate@.context;
    for i in 0..candidate.context.len()
        invariant
            context == views(candidate.context@),
            context == candidate@.context,
            forall|j: int| 0 <= j < i ==> !bot_flag((#[trigger] context[j]).payload),
    {
        assert(context[i as int] == candidate.context@[i as int]@);
        if payload_has_bot_flag(&candidate.context[i].payload) {
            return true;
        }
    }
    false
}

/// Leaves the automated accounts out.
pub fn reject_bot_candidates(candidates: &mut Vec<Candidate>)
    ensures
        views(final(candidates)@) == select(views(old(candidates)@), is_person()),
{
    let mut all: Vec<Candidate> = Vec::new();
    std::mem::swap(&mut all, candidates);
    let ghost list = views(all@);
    assert(views(candidates@) =~= select(list.take(0), is_person()));
    for candidate in it: all
        invariant
            views(it.seq()) == list,
            views(candidates@) == select(list.take(it.index()), is_person()),
    {
        let ghost before = views(candidates@);
        let ghost item = candidate@;
        proof {
            assert(list.take(it.index() + 1).drop_last() =~= list.take(it.index()));
            assert(list.take(it.index() + 1).last() == item);
        }
        if !candidate_is_bot_like(&candidate) {
            candidates.push(candidate);
            assert(views(candidates@) =~= before.push(item));
        }
    }
    assert(list.take(list.len() as int) =~= list);
}

/// The people among collected candidates, ranked.
pub fn ranked_candidates(candidates: Vec<Candidate>) -> (r: Vec<Candidate>)
    ensures
        views(r@) == ranked(views(candidates@)),
{
    let mut candidates = candidates;
    reject_bot_candidates(&mut candidates);
    stable_sort::<Candidate, ByScore>(candidates)
}

/// Whether a query stands in the id or in the name of a candidate.
pub fn candidate_matches_query(candidate: &Candidate, query: &str) -> (r: bool)
    ensures
        r == matches_query(query@)(candidate@),
{
    let query = to_lower(query);
    if contains(to_lower(candidate.id.as_str()).as_str(), query.as_str()) {
        return true;
    }
    let name = match &candidate.name {
        Some(name) => to_lower(name.as_str()),
        None => {
            let empty = String::new();
            assert(empty@ =~= lowered(Seq::<char>::empty()));
            empty
        },
    };
    contains(name.as_str(), query.as_str())
}

/// Keeps the candidates that match a query.
fn keep_matching(candidates: Vec<Candidate>, query: Option<&str>) -> (r: Vec<Candidate>)
    ensures
        views(r@) == matching(views(candidates@), opt_str(query)),
{
    let query = match query {
        Some(query) => query,
        None => return candidates,
    };
    let ghost list = views(candidates@);
    let ghost keep = matches_query(query@);
    let mut out: Vec<Candidate> = Vec::new();
    assert(views(out@) =~= select(list.take(0), keep));
    for candidate in it: candidates
        invariant
            views(it.seq()) == list,
            keep == matches_query(query@),
            views(out@) == select(list.take(it.index()), keep),
    {
        let ghost before = views(out@);
        let ghost item = candidate@;
        proof {
            assert(list.take(it.index() + 1).drop_last() =~= list.take(it.index()));
            assert(list.take(it.index() + 1).last() == item);
        }
        if candidate_matches_query(&candidate, query) {
            out.push(candidate);
            assert(views(out@) =~= before.push(item));
        }
    }
    assert(list.take(list.len() as int) =~= list);
    out
}

/// Whether a candidate stands behind a place in the list by score.
pub fn score_candidate_after_cursor(candidate: &Candidate, cursor: &ContactCursor) -> (r: bool)
    ensures
        r == after_score(candidate@, cursor@),
{
    match cursor {
        ContactCursor::Score { score_bits, id } => score_is_less(candidate.score, *score_bits) || (
        !score_is_less(*score_bits, candidate.score) && comes_before(
            id.as_str(),
            candidate.id.as_str(),
        )),
        _ => false,
    }
}

/// Whether a candidate stands behind a place in the list by recency.
pub fn recent_candidate_after_cursor(candidate: &Candidate, cursor: &ContactCursor) -> (r: bool)
    ensures
        r == after_recent(candidate@, cursor@),
{
    match cursor {
        ContactCursor::Recent { last_message_at_ms, id } => is_earlier(
            candidate.last_message_at_ms,
            *last_message_at_ms,
        ) || (candidate.last_message_at_ms == *last_message_at_ms && comes_before(
            id.as_str(),
            candidate.id.as_str(),
        )),
        _ => false,
    }
}

/// The name that a candidate can be shown with.
pub fn safe_display_name_for_candidate(candidate: &Candidate, ids: &TextMap<String>) -> (r: Option<
    String,
>)
    ensures
        opt_text(r) == safe_name(candidate@, ids@),
{
    match clean_opt(as_text(&candidate.name)) {
        Some(name) => {
            if same_text(name, candidate.id.as_str()) || ids.get(name).is_some() {
                None
            } else {
                Some(name.to_owned())
            }
        },
        None => None,
    }
}

/// How a Telegram candidate is shown.
pub fn display_for_candidate(candidate: &Candidate, ids: &TextMap<String>) -> (r: Option<
    ContactDisplay,
>)
    ensures
        crate::models::opt_display(r) == display_of(candidate@, ids@),
{
    if !is_telegram_contact_id(candidate.id.as_str()) {
        return None;
    }
    let name = safe_display_name_for_candidate(candidate, ids);
    let own_username = match &candidate.public_username {
        Some(username) => sanitize_public_username(username.as_str()),
        None => None,
    };
    let public_username = match own_username {
        Some(username) => Some(username),
        None => public_username_from_contact_id(candidate.id.as_str()),
    };
    let username_label = match &public_username {
        Some(username) => Some(joined("@", username.as_str())),
        None => None,
    };
    let label = match &name {
        Some(name) => name.clone(),
        None => match &username_label {
            Some(label) => label.clone(),
            None => "Telegram contact".to_owned(),
        },
    };
    let unavailable_reason = if public_username.is_some() {
        None
    } else if name.is_some() {
        Some("no_public_username".to_owned())
    } else {
        Some("display_identity_unavailable".to_owned())
    };
    Some(ContactDisplay { label, name, public_username, username_label, unavailable_reason })
}

impl Candidate {
    /// The candidate as a contact.
    pub fn into_contact(self, ids: &TextMap<String>) -> (r: ConnectorContact)
        ensures
            r@ == contact_of(self@, ids@),
    {
        let display = display_for_candidate(&self, ids);
        ConnectorContact {
            id: self.id,
            avatar: self.avatar,
            name: self.name,
            display,
            context: self.context,
            score: self.score,
            last_message_at_ms: self.last_message_at_ms,
        }
    }

    /// The candidate as a contact in a list.
    pub fn into_preview_contact(self, ids: &TextMap<String>) -> (r: ConnectorContact)
        ensures
            r@ == preview_of(self@, ids@),
    {
        let display = display_for_candidate(&self, ids);
        let r = ConnectorContact {
            id: self.id,
            avatar: None,
            name: self.name,
            display,
            context: Vec::new(),
            score: self.score,
            last_message_at_ms: self.last_message_at_ms,
        };
        assert(r@.context =~= Seq::<ContextView>::empty());
        r
    }
}

/// Which list a page is taken from.
#[derive(Debug, Clone, Copy, PartialEq, Eq, Structural)]
pub enum ListOrder {
    Score,
    Recent,
}

spec fn after_in(order: ListOrder, cursor: CursorView) -> spec_fn(CandidateView) -> bool {
    match order {
        ListOrder::Score => |candidate: CandidateView| after_score(candidate, cursor),
        ListOrder::Recent => |candidate: CandidateView| after_recent(candidate, cursor),
    }
}

spec fn cursor_in(order: ListOrder) -> spec_fn(CandidateView) -> CursorView {
    match order {
        ListOrder::Score => |candidate: CandidateView| score_cursor(candidate),
        ListOrder::Recent => |candidate: CandidateView| recent_cursor(candidate),
    }
}

spec fn behind_in(
    order: ListOrder,
    candidates: Seq<CandidateView>,
    cursor: Option<CursorView>,
) -> Seq<CandidateView> {
    match order {
        ListOrder::Score => behind_score(candidates, cursor),
        ListOrder::Recent => behind_recent(candidates, cursor),
    }
}

fn is_after_cursor(order: ListOrder, candidate: &Candidate, cursor: &ContactCursor) -> (r: bool)
    ensures
        r == after_in(order, cursor@)(candidate@),
{
    match order {
        ListOrder::Score => score_candidate_after_cursor(candidate, cursor),
        ListOrder::Recent => recent_candidate_after_cursor(candidate, cursor),
    }
}

/// The candidates behind a place in a list.
fn drop_until_cursor(
    order: ListOrder,
    candidates: Vec<Candidate>,
    cursor: Option<&ContactCursor>,
) -> (r: Vec<Candidate>)
    ensures
        views(r@) == behind_in(
            order,
            views(candidates@),
            match cursor {
                Some(cursor) => Some(cursor@),
                None => None,
            },
        ),
{
    let cursor = match cursor {
        Some(cursor) => cursor,
        None => return candidates,
    };
    let ghost list = views(candidates@);
    let ghost keep = after_in(order, cursor@);
    let mut out: Vec<Candidate> = Vec::new();
    assert(views(out@) =~= select(list.take(0), keep));
    for candidate in it: candidates
        invariant
            views(it.seq()) == list,
            keep == after_in(order, cursor@),
            views(out@) == select(list.take(it.index()), keep),
    {
        let ghost before = views(out@);
        let ghost item = candidate@;
        proof {
            assert(list.take(it.index() + 1).drop_last() =~= list.take(it.index()));
            assert(list.take(it.index() + 1).last() == item);
        }
        if is_after_cursor(order, &candidate, cursor) {
            out.push(candidate);
            assert(views(out@) =~= before.push(item));
        }
    }
    assert(list.take(list.len() as int) =~= list);
    out
}

/// Takes a page from a list of candidates.
fn paginate_candidates(
    order: ListOrder,
    candidates: Vec<Candidate>,
    limit: usize,
    cursor: Option<&ContactCursor>,
    ids: &TextMap<String>,
) -> (r: CandidatePage)
    ensures
        r@ == page_of(
            candidates@.len() as int,
            behind_in(
                order,
                views(candidates@),
                match cursor {
                    Some(cursor) => Some(cursor@),
                    None => None,
                },
            ),
            limit as int,
            cursor_in(order),
            ids@,
        ),
{
    let candidate_count = candidates.len();
    let mut rest = drop_until_cursor(order, candidates, cursor);
    let ghost behind = views(rest@);
    assert(behind.len() == rest@.len());
    let has_more = rest.len() > limit;
    rest.truncate(limit);
    let ghost shown = first_items(behind, limit as int);
    assert(views(rest@) =~= shown);
    let next_cursor = if has_more && rest.len() > 0 {
        let last = &rest[rest.len() - 1];
        assert(shown.last() == last@);
        Some(
            match order {
                ListOrder::Score => ContactCursor::Score {
                    score_bits: last.score,
                    id: last.id.clone(),
                },
                ListOrder::Recent => ContactCursor::Recent {
                    last_message_at_ms: last.last_message_at_ms,
                    id: last.id.clone(),
                },
            },
        )
    } else {
        None
    };
    let ghost next = opt_cursor(next_cursor);
    let mut out: Vec<ConnectorContact> = Vec::new();
    assert(views(out@) =~= previews_of(shown.take(0), ids@));
    for candidate in it: rest
        invariant
            views(it.seq()) == shown,
            views(out@) == previews_of(shown.take(it.index()), ids@),
    {
        let ghost before = views(out@);
        assert(shown[it.index()] == candidate@);
        let ghost item = preview_of(candidate@, ids@);
        out.push(candidate.into_preview_contact(ids));
        assert(views(out@) =~= before.push(item));
        assert(previews_of(shown.take(it.index() + 1), ids@) =~= previews_of(
            shown.take(it.index()),
            ids@,
        ).push(item));
    }
    assert(shown.take(shown.len() as int) =~= shown);
    CandidatePage { candidates: out, candidate_count, has_more, next_cursor }
}

/// Takes a page from the list by score. A place in another list is refused.
pub fn paginate_score_candidates(
    candidates: Vec<Candidate>,
    limit: usize,
    cursor: Option<ContactCursor>,
    ids: &TextMap<String>,
) -> (r: Result<CandidatePage, ContactError>)
    ensures
        match r {
            Ok(page) => !(opt_cursor(cursor) matches Some(CursorView::Recent { .. })) && page@
                == score_page(views(candidates@), limit as int, opt_cursor(cursor), ids@),
            Err(error) => error == ContactError::ScoreCursorMismatch && opt_cursor(
                cursor,
            ) matches Some(CursorView::Recent { .. }),
        },
{
    match &cursor {
        Some(ContactCursor::Recent { .. }) => Err(ContactError::ScoreCursorMismatch),
        Some(cursor) => Ok(
            paginate_candidates(ListOrder::Score, candidates, limit, Some(cursor), ids),
        ),
        None => Ok(paginate_candidates(ListOrder::Score, candidates, limit, None, ids)),
    }
}

/// Takes a page from the list by recency. A place in another list is refused.
pub fn paginate_recent_candidates(
    candidates: Vec<Candidate>,
    limit: usize,
    cursor: Option<ContactCursor>,
    ids: &TextMap<String>,
) -> (r: Result<CandidatePage, ContactError>)
    ensures
        match r {
            Ok(page) => !(opt_cursor(cursor) matches Some(CursorView::Score { .. })) && page@
                == recent_page(views(candidates@), limit as int, opt_cursor(cursor), ids@),
            Err(error) => error == ContactError::RecentCursorMismatch && opt_cursor(
                cursor,
            ) matches Some(CursorView::Score { .. }),
        },
{
    match &cursor {
        Some(ContactCursor::Score { .. }) => Err(ContactError::RecentCursorMismatch),
        Some(cursor) => Ok(
            paginate_candidates(ListOrder::Recent, candidates, limit, Some(cursor), ids),
        ),
        None => Ok(paginate_candidates(ListOrder::Recent, candidates, limit, None, ids)),
    }
}

/// A page of the candidates that match a query, ranked.
pub fn filtered_candidates(
    candidates: Vec<Candidate>,
    limit: usize,
    cursor: Option<ContactCursor>,
    query: Option<&str>,
    ids: &TextMap<String>,
) -> (r: Result<CandidatePage, ContactError>)
    ensures
        match r {
            Ok(page) => !(opt_cursor(cursor) matches Some(CursorView::Recent { .. })) && page@
                == score_page(
                matching(ranked(views(candidates@)), opt_str(query)),
                limit as int,
                opt_cursor(cursor),
                ids@,
            ),
            Err(error) => error == ContactError::ScoreCursorMismatch && opt_cursor(
                cursor,
            ) matches Some(CursorView::Recent { .. }),
        },
{
    let candidates = keep_matching(ranked_candidates(candidates), query);
    paginate_score_candidates(candidates, limit, cursor, ids)
}

/// The candidates that a search finds, ranked.
pub open spec fn searched(candidates: Seq<CandidateView>, query: Option<Seq<char>>) -> Seq<
    CandidateView,
> {
    match query {
        Some(query) => sorted_by(
            select(select(candidates, is_person()), matches_query(query)),
            rank_order(),
        ),
        None => ranked(candidates),
    }
}

/// A page of the candidates that a search finds.
pub fn searched_candidates(
    candidates: Vec<Candidate>,
    limit: usize,
    cursor: Option<ContactCursor>,
    query: Option<&str>,
    ids: &TextMap<String>,
) -> (r: Result<CandidatePage, ContactError>)
    ensures
        match r {
            Ok(page) => !(opt_cursor(cursor) matches Some(CursorView::Recent { .. })) && page@
                == score_page(
                searched(views(candidates@), opt_str(query)),
                limit as int,
                opt_cursor(cursor),
                ids@,
            ),
            Err(error) => error == ContactError::ScoreCursorMismatch && opt_cursor(
                cursor,
            ) matches Some(CursorView::Recent { .. }),
        },
{
    if query.is_none() {
        return filtered_candidates(candidates, limit, cursor, None, ids);
    }
    let mut candidates = candidates;
    reject_bot_candidates(&mut candidates);
    let found = keep_matching(candidates, query);
    paginate_score_candidates(stable_sort::<Candidate, ByScore>(found), limit, cursor, ids)
}

/// The score of a candidate is a number.
pub open spec fn is_scored() -> spec_fn(CandidateView) -> bool {
    |candidate: CandidateView| !not_a_number(candidate.score)
}

pub open spec fn candidate_id() -> spec_fn(CandidateView) -> Seq<char> {
    |candidate: CandidateView| candidate.id
}

/// Candidates with scores can be ranked.
pub proof fn lemma_rank_order()
    ensures
        weak_order(rank_order(), is_scored()),
{
    let before = rank_order();
    let scored = is_scored();
    assert forall|a: CandidateView, b: CandidateView|
        scored(a) && scored(b) && #[trigger] before(a, b) implies !before(b, a) by {
        law_order_irreflexive(a.id);
        if text_less(a.id, b.id) && text_less(b.id, a.id) {
            law_order_transitive(a.id, b.id, a.id);
        }
    }
    assert forall|a: CandidateView, b: CandidateView, c: CandidateView|
        scored(a) && scored(b) && scored(c) && !(#[trigger] before(a, b)) && !(#[trigger] before(
            b,
            c,
        )) implies !before(a, c) by {
        law_order_total(a.id, b.id);
        law_order_total(b.id, c.id);
        law_order_irreflexive(a.id);
        if text_less(b.id, a.id) && text_less(c.id, b.id) {
            law_order_transitive(c.id, b.id, a.id);
        }
        if text_less(a.id, c.id) && text_less(c.id, a.id) {
            law_order_transitive(a.id, c.id, a.id);
        }
    }
}

/// Ranking leaves out the automated accounts and nobody else, and puts the higher ranked first.
pub proof fn law_ranking(candidates: Seq<CandidateView>)
    requires
        all_ranked(candidates, is_scored()),
    ensures
        forall|x: CandidateView| #[trigger]
            ranked(candidates).contains(x) <==> candidates.contains(x) && !bot_like(x),
        forall|i: int, j: int|
            0 <= i < j < ranked(candidates).len() ==> !higher_ranked(
                #[trigger] ranked(candidates)[j],
                #[trigger] ranked(candidates)[i],
            ),
{
    let people = select(candidates, is_person());
    lemma_select(candidates, is_person());
    assert forall|i: int| 0 <= i < people.len() implies is_scored()(#[trigger] people[i]) by {
        assert(people.contains(people[i]));
        let k = candidates.index_of(people[i]);
        assert(is_scored()(candidates[k]));
    }
    lemma_rank_order();
    law_sorting_orders(people, rank_order(), is_scored());
    let before = rank_order();
    let list = ranked(candidates);
    assert forall|i: int, j: int| 0 <= i < j < list.len() implies !higher_ranked(
        #[trigger] list[j],
        #[trigger] list[i],
    ) by {
        assert(!before(list[j], list[i]));
    }
    assert forall|x: CandidateView| #[trigger] list.contains(x) <==> candidates.contains(x)
        && !bot_like(x) by {
        lemma_sorted_contains(people, rank_order(), x);
    }
}

/// In what order candidates were collected makes no difference to their ranking.
pub proof fn law_ranking_ignores_collection_order(a: Seq<CandidateView>, b: Seq<CandidateView>)
    requires
        a.to_multiset() == b.to_multiset(),
        all_ranked(a, is_scored()),
        distinct_by(a, candidate_id()),
    ensures
        ranked(a) == ranked(b),
{
    broadcast use vstd::seq_lib::group_to_multiset_ensures;

    assert forall|i: int| 0 <= i < b.len() implies is_scored()(#[trigger] b[i]) by {
        assert(b.contains(b[i]));
        assert(a.to_multiset().contains(b[i]));
        assert(a.contains(b[i]));
        let k = a.index_of(b[i]);
        assert(is_scored()(a[k]));
    }
    lemma_select_multiset(a, is_person());
    lemma_select_multiset(b, is_person());
    let people_a = select(a, is_person());
    let people_b = select(b, is_person());
    lemma_select(a, is_person());
    lemma_select(b, is_person());
    assert forall|i: int| 0 <= i < people_a.len() implies is_scored()(#[trigger] people_a[i]) by {
        assert(people_a.contains(people_a[i]));
        let k = a.index_of(people_a[i]);
        assert(is_scored()(a[k]));
    }
    assert forall|i: int| 0 <= i < people_b.len() implies is_scored()(#[trigger] people_b[i]) by {
        assert(people_b.contains(people_b[i]));
        let k = b.index_of(people_b[i]);
        assert(is_scored()(b[k]));
    }
    lemma_rank_order();
    law_sorting_orders(people_a, rank_order(), is_scored());
    law_sorting_orders(people_b, rank_order(), is_scored());
    law_sorting_keeps_items(people_a, rank_order());
    law_sorting_keeps_items(people_b, rank_order());
    let before = rank_order();
    let key = candidate_id();
    assert forall|x: CandidateView, y: CandidateView|
        ranked(a).contains(x) && ranked(a).contains(y) && x != y implies #[trigger] before(x, y)
        || before(y, x) by {
        lemma_sorted_contains(people_a, rank_order(), x);
        lemma_sorted_contains(people_a, rank_order(), y);
        let i = a.index_of(x);
        let j = a.index_of(y);
        if i < j {
            assert(key(a[i]) != key(a[j]));
        } else {
            assert(key(a[j]) != key(a[i]));
        }
        law_order_total(x.id, y.id);
    }
    lemma_ordered_unique(ranked(a), ranked(b), before);
}

/// A search for a query finds the same as the list of the candidates that match it.
pub proof fn law_search_finds_what_list_shows(
    candidates: Seq<CandidateView>,
    query: Option<Seq<char>>,
)
    requires
        all_ranked(candidates, is_scored()),
    ensures
        searched(candidates, query) == matching(ranked(candidates), query),
{
    if let Some(text) = query {
        let people = select(candidates, is_person());
        lemma_select(candidates, is_person());
        assert forall|i: int| 0 <= i < people.len() implies is_scored()(#[trigger] people[i]) by {
            assert(people.contains(people[i]));
            let k = candidates.index_of(people[i]);
            assert(is_scored()(candidates[k]));
        }
        lemma_rank_order();
        lemma_select_sorted(people, rank_order(), is_scored(), matches_query(text));
    }
}

/// The place behind the candidate with an index; the start of the list for none.
pub open spec fn score_place(candidates: Seq<CandidateView>, index: int) -> Option<CursorView> {
    if index < 0 {
        None
    } else {
        Some(score_cursor(candidates[index]))
    }
}

pub open spec fn recent_place(candidates: Seq<CandidateView>, index: int) -> Option<CursorView> {
    if index < 0 {
        None
    } else {
        Some(recent_cursor(candidates[index]))
    }
}

/// A ranked list of candidates with different ids is strictly ordered, whole or searched: of any two
/// candidates the first ranks higher.
pub proof fn law_ranked_strictly(candidates: Seq<CandidateView>, query: Option<Seq<char>>)
    requires
        all_ranked(candidates, is_scored()),
        distinct_by(candidates, candidate_id()),
    ensures
        pairwise(matching(ranked(candidates), query), rank_order()),
        pairwise(searched(candidates, query), rank_order()),
{
    let people = select(candidates, is_person());
    let list = ranked(candidates);
    let key = candidate_id();
    let before = rank_order();
    law_ranking(candidates);
    lemma_select_pairs(
        candidates,
        is_person(),
        |a: CandidateView, b: CandidateView| key(a) != key(b),
    );
    assert(distinct_by(people, key)) by {
        let related = |a: CandidateView, b: CandidateView| key(a) != key(b);
        assert forall|i: int, j: int| 0 <= i < j < people.len() implies key(
            #[trigger] people[i],
        ) != key(#[trigger] people[j]) by {
            assert(related(people[i], people[j]));
        }
    }
    lemma_sorting_keeps_distinct(people, before, key);
    assert forall|i: int, j: int| 0 <= i < j < list.len() implies before(
        #[trigger] list[i],
        #[trigger] list[j],
    ) by {
        assert(list.contains(list[i]) && list.contains(list[j]));
        assert(key(list[i]) != key(list[j]));
        assert(!higher_ranked(list[j], list[i]));
        law_order_total(list[i].id, list[j].id);
        let m = candidates.index_of(list[i]);
        let n = candidates.index_of(list[j]);
        assert(is_scored()(candidates[m]) && is_scored()(candidates[n]));
    }
    if let Some(text) = query {
        lemma_select_pairs(list, matches_query(text), before);
    }
    law_search_finds_what_list_shows(candidates, query);
}

/// A list by recency of candidates with different ids is strictly ordered.
pub proof fn law_recent_strictly(candidates: Seq<CandidateView>)
    requires
        distinct_by(candidates, candidate_id()),
    ensures
        pairwise(
            select(sorted_by(candidates, recency_order()), is_person()),
            recency_order(),
        ),
{
    let list = sorted_by(candidates, recency_order());
    let key = candidate_id();
    let before = recency_order();
    lemma_recency_order();
    law_sorting_orders(candidates, before, |candidate: CandidateView| true);
    lemma_sorting_keeps_distinct(candidates, before, key);
    assert forall|i: int, j: int| 0 <= i < j < list.len() implies before(
        #[trigger] list[i],
        #[trigger] list[j],
    ) by {
        assert(key(list[i]) != key(list[j]));
        assert(!before(list[j], list[i]));
        law_order_total(list[i].id, list[j].id);
    }
    lemma_select_pairs(list, is_person(), before);
}

proof fn lemma_ranks_one_way(a: CandidateView, b: CandidateView)
    ensures
        higher_ranked(a, b) ==> !higher_ranked(b, a),
        more_recent(a, b) ==> !more_recent(b, a),
{
    law_order_irreflexive(a.id);
    if text_less(a.id, b.id) && text_less(b.id, a.id) {
        law_order_transitive(a.id, b.id, a.id);
    }
}

/// Pages of a strictly ordered list follow one another without a gap and without a repetition:
/// behind a place stand the candidates that come after it, a page has more where there are more than
/// it shows, and the next place is behind the last one that it shows.
pub proof fn law_score_pages(
    candidates: Seq<CandidateView>,
    index: int,
    limit: int,
    ids: Map<Seq<char>, Seq<char>>,
)
    requires
        pairwise(candidates, rank_order()),
        -1 <= index < candidates.len(),
        limit > 0,
    ensures
        behind_score(candidates, score_place(candidates, index)) == candidates.skip(index + 1),
        ({
            let page = score_page(candidates, limit, score_place(candidates, index), ids);
            &&& page.candidates == previews_of(
                first_items(candidates.skip(index + 1), limit),
                ids,
            )
            &&& page.candidate_count == candidates.len()
            &&& page.has_more == (index + 1 + limit < candidates.len())
            &&& page.next_cursor == (if page.has_more {
                score_place(candidates, index + limit)
            } else {
                None
            })
        }),
{
    if index >= 0 {
        let cursor = score_cursor(candidates[index]);
        let keep = |candidate: CandidateView| after_score(candidate, cursor);
        let before = rank_order();
        assert forall|i: int| 0 <= i < index + 1 implies !keep(#[trigger] candidates[i]) by {
            lemma_ranks_one_way(candidates[i], candidates[index]);
            if i < index {
                assert(before(candidates[i], candidates[index]));
            }
        }
        assert forall|i: int| index + 1 <= i < candidates.len() implies keep(
            #[trigger] candidates[i],
        ) by {
            assert(before(candidates[index], candidates[i]));
        }
        lemma_select_end(candidates, keep, index + 1);
    } else {
        assert(candidates.skip(0) =~= candidates);
    }
}

/// The same of the list by recency.
pub proof fn law_recent_pages(
    candidates: Seq<CandidateView>,
    index: int,
    limit: int,
    ids: Map<Seq<char>, Seq<char>>,
)
    requires
        pairwise(candidates, recency_order()),
        -1 <= index < candidates.len(),
        limit > 0,
    ensures
        behind_recent(candidates, recent_place(candidates, index)) == candidates.skip(index + 1),
        ({
            let page = recent_page(candidates, limit, recent_place(candidates, index), ids);
            &&& page.candidates == previews_of(
                first_items(candidates.skip(index + 1), limit),
                ids,
            )
            &&& page.candidate_count == candidates.len()
            &&& page.has_more == (index + 1 + limit < candidates.len())
            &&& page.next_cursor == (if page.has_more {
                recent_place(candidates, index + limit)
            } else {
                None
            })
        }),
{
    if index >= 0 {
        let cursor = recent_cursor(candidates[index]);
        let keep = |candidate: CandidateView| after_recent(candidate, cursor);
        let before = recency_order();
        assert forall|i: int| 0 <= i < index + 1 implies !keep(#[trigger] candidates[i]) by {
            lemma_ranks_one_way(candidates[i], candidates[index]);
            if i < index {
                assert(before(candidates[i], candidates[index]));
            }
        }
        assert forall|i: int| index + 1 <= i < candidates.len() implies keep(
            #[trigger] candidates[i],
        ) by {
            assert(before(candidates[index], candidates[i]));
        }
        lemma_select_end(candidates, keep, index + 1);
    } else {
        assert(candidates.skip(0) =~= candidates);
    }
}

/// A candidate that comes in ahead of a place changes nothing of what stands behind it.
pub proof fn law_place_survives_candidate_ahead(
    candidates: Seq<CandidateView>,
    index: int,
    newcomer: CandidateView,
)
    requires
        pairwise(candidates, rank_order()),
        all_ranked(candidates, is_scored()),
        0 <= index < candidates.len(),
        !not_a_number(newcomer.score),
        higher_ranked(newcomer, candidates[index]),
    ensures
        behind_score(
            insert_by(candidates, newcomer, rank_order()),
            Some(score_cursor(candidates[index])),
        ) == candidates.skip(index + 1),
{
    let cursor = score_cursor(candidates[index]);
    let keep = |candidate: CandidateView| after_score(candidate, cursor);
    let before = rank_order();
    assert forall|i: int, j: int| 0 <= i < j < candidates.len() implies !before(
        candidates[j],
        candidates[i],
    ) by {
        assert(before(candidates[i], candidates[j]));
        lemma_ranks_one_way(candidates[i], candidates[j]);
    }
    lemma_rank_order();
    lemma_select_insert(candidates, newcomer, before, is_scored(), keep);
    lemma_ranks_one_way(newcomer, candidates[index]);
    law_score_pages(candidates, index, 1, Map::empty());
}

/// A Telegram contact is shown with a label that is not empty. Its name is never an id, and a
/// reason is given where it has no public username.
pub proof fn law_display(candidate: CandidateView, ids: Map<Seq<char>, Seq<char>>)
    ensures
        display_of(candidate, ids) is Some == telegram_id(candidate.id),
        match display_of(candidate, ids) {
            Some(display) => {
                &&& display.label.len() > 0
                &&& match display.name {
                    Some(name) => name != candidate.id && !ids.contains_key(name) && display.label
                        == name,
                    None => true,
                }
                &&& display.unavailable_reason is None == display.public_username is Some
                &&& display.username_label is Some == display.public_username is Some
            },
            None => true,
        },
{
    reveal_strlit("Telegram contact");
    reveal_strlit("@");
}

/// A contact in a list carries neither avatar nor context; else it is the candidate.
pub proof fn law_previews_are_light(candidate: CandidateView, ids: Map<Seq<char>, Seq<char>>)
    ensures
        preview_of(candidate, ids).avatar is None,
        preview_of(candidate, ids).context.len() == 0,
        preview_of(candidate, ids).id == candidate.id,
        preview_of(candidate, ids).name == candidate.name,
        preview_of(candidate, ids).score == candidate.score,
{
}

/// Ranking the candidates of a map gives one list, in whatever order the map hands them out.
pub proof fn law_ranking_of_map(
    a: Seq<CandidateView>,
    b: Seq<CandidateView>,
    by_id: Map<Seq<char>, CandidateView>,
)
    requires
        lists_values(a, by_id),
        lists_values(b, by_id),
        forall|id: Seq<char>| #[trigger] by_id.contains_key(id) ==> by_id[id].id == id,
        all_ranked(a, is_scored()),
    ensures
        ranked(a) == ranked(b),
        distinct_by(a, candidate_id()),
{
    law_values_of_map(a, b, by_id);
    lemma_values_are_distinct(a, by_id, candidate_id());
    law_ranking_ignores_collection_order(a, b);
}

/// So does listing them by recency.
pub proof fn law_recency_of_map(
    a: Seq<CandidateView>,
    b: Seq<CandidateView>,
    by_id: Map<Seq<char>, CandidateView>,
)
    requires
        lists_values(a, by_id),
        lists_values(b, by_id),
        forall|id: Seq<char>| #[trigger] by_id.contains_key(id) ==> by_id[id].id == id,
    ensures
        sorted_by(a, recency_order()) == sorted_by(b, recency_order()),
{
    broadcast use vstd::seq_lib::group_to_multiset_ensures;

    let before = recency_order();
    let key = candidate_id();
    law_values_of_map(a, b, by_id);
    lemma_values_are_distinct(a, by_id, key);
    lemma_recency_order();
    law_sorting_orders(a, before, |candidate: CandidateView| true);
    law_sorting_orders(b, before, |candidate: CandidateView| true);
    law_sorting_keeps_items(a, before);
    law_sorting_keeps_items(b, before);
    let sorted = sorted_by(a, before);
    assert forall|x: CandidateView, y: CandidateView|
        sorted.contains(x) && sorted.contains(y) && x != y implies #[trigger] before(x, y)
        || before(y, x) by {
        lemma_sorted_contains(a, before, x);
        lemma_sorted_contains(a, before, y);
        let i = a.index_of(x);
        let j = a.index_of(y);
        if i < j {
            assert(key(a[i]) != key(a[j]));
        } else {
            assert(key(a[j]) != key(a[i]));
        }
        law_order_total(x.id, y.id);
    }
    lemma_ordered_unique(sorted, sorted_by(b, before), before);
}

/// In a query upper and lower case make no difference.
pub proof fn law_query_ignores_case(
    candidates: Seq<CandidateView>,
    query: Seq<char>,
    other: Seq<char>,
)
    requires
        lowered(query) == lowered(other),
    ensures
        matching(candidates, Some(query)) == matching(candidates, Some(other)),
{
    let a = matches_query(query);
    let b = matches_query(other);
    assert(a =~= b);
}

/// The candidate is no automated account, and its id or its name holds the query, whatever the case.
pub open spec fn is_found(query: Seq<char>) -> spec_fn(CandidateView) -> bool {
    |candidate: CandidateView|
        !bot_like(candidate) && (holds_text(lowered(candidate.id), lowered(query)) || match
            candidate.name {
            Some(name) => holds_text(lowered(name), lowered(query)),
            None => query.len() == 0,
        })
}

proof fn lemma_no_name(query: Seq<char>)
    ensures
        holds_text(lowered(Seq::<char>::empty()), lowered(query)) <==> query.len() == 0,
{
    let none = lowered(Seq::<char>::empty());
    let part = lowered(query);
    if query.len() == 0 {
        assert(none.subrange(0, 0) =~= part);
        assert(crate::text::stands_at(none, part, 0));
    }
}

/// What is chosen among the people by a query is what the query finds.
pub proof fn lemma_found(candidates: Seq<CandidateView>, query: Seq<char>)
    ensures
        select(select(candidates, is_person()), matches_query(query)) == candidates.filter(
            is_found(query),
        ),
    decreases candidates.len(),
{
    reveal(Seq::filter);
    lemma_no_name(query);
    if candidates.len() > 0 {
        let rest = candidates.drop_last();
        let last = candidates.last();
        lemma_found(rest, query);
        if !bot_like(last) {
            let people = select(rest, is_person());
            assert(people.push(last).drop_last() =~= people);
            assert(people.push(last).last() == last);
        }
    }
}

/// A search and a list for a query hold exactly the candidates that the query finds, each as often as
/// it was collected.
pub proof fn law_search_is_exact(candidates: Seq<CandidateView>, query: Seq<char>)
    ensures
        searched(candidates, Some(query)).to_multiset() == candidates.filter(
            is_found(query),
        ).to_multiset(),
        matching(ranked(candidates), Some(query)).to_multiset() == candidates.filter(
            is_found(query),
        ).to_multiset(),
        searched(candidates, None).to_multiset() == candidates.filter(
            |c: CandidateView| !bot_like(c),
        ).to_multiset(),
        matching(ranked(candidates), None).to_multiset() == candidates.filter(
            |c: CandidateView| !bot_like(c),
        ).to_multiset(),
{
    let people = select(candidates, is_person());
    let keep = matches_query(query);
    lemma_found(candidates, query);
    law_sorting_keeps_items(select(people, keep), rank_order());
    law_sorting_keeps_items(people, rank_order());
    lemma_select_multiset(ranked(candidates), keep);
    lemma_select_multiset(people, keep);
    let person = |c: CandidateView| !bot_like(c);
    assert(is_person() =~= person);
    crate::order::law_select(candidates, person);
}

/// A candidate whose name or id holds the query anywhere, in whatever case, is found by the search
/// and stands in the list for it.
pub proof fn law_search_finds(
    candidates: Seq<CandidateView>,
    query: Seq<char>,
    wanted: CandidateView,
    a: Seq<char>,
    m: Seq<char>,
    b: Seq<char>,
)
    requires
        candidates.contains(wanted),
        !bot_like(wanted),
        lowered(m) == lowered(query),
        wanted.id == a + m + b || wanted.name == Some(a + m + b),
    ensures
        searched(candidates, Some(query)).contains(wanted),
        matching(ranked(candidates), Some(query)).contains(wanted),
{
    broadcast use vstd::seq_lib::group_to_multiset_ensures;

    crate::text::law_lowered_pieces(a + m, b);
    crate::text::law_lowered_pieces(a, m);
    crate::text::law_parts(Seq::empty(), lowered(m), lowered(a), lowered(b));
    let found = candidates.filter(is_found(query));
    let k = candidates.index_of(wanted);
    assert(is_found(query)(candidates[k]));
    candidates.lemma_filter_contains(is_found(query), k);
    assert(found.to_multiset().contains(wanted));
    law_search_is_exact(candidates, query);
    assert(searched(candidates, Some(query)).to_multiset().contains(wanted));
    assert(matching(ranked(candidates), Some(query)).to_multiset().contains(wanted));
}

/// Whoever is found by a search has the query in its id or in its name, and is no automated account.
pub proof fn law_search_finds_nobody_else(
    candidates: Seq<CandidateView>,
    query: Seq<char>,
    shown: CandidateView,
)
    requires
        query.len() > 0,
        searched(candidates, Some(query)).contains(shown),
    ensures
        candidates.contains(shown),
        !bot_like(shown),
        exists|a: Seq<char>, b: Seq<char>|
            lowered(shown.id) == #[trigger] (a + lowered(query) + b) || (shown.name is Some
                && lowered(shown.name->0) == a + lowered(query) + b),
{
    broadcast use vstd::seq_lib::group_to_multiset_ensures;

    law_search_is_exact(candidates, query);
    let found = candidates.filter(is_found(query));
    assert(searched(candidates, Some(query)).to_multiset().contains(shown));
    assert(found.to_multiset().contains(shown));
    assert(found.contains(shown));
    let k = found.index_of(shown);
    candidates.lemma_filter_pred(is_found(query), k);
    candidates.lemma_filter_contains_rev(is_found(query), shown);
    let none = Seq::<char>::empty();
    if holds_text(lowered(shown.id), lowered(query)) {
        crate::text::law_parts(lowered(shown.id), lowered(query), none, none);
    } else {
        crate::text::law_parts(lowered(shown.name->0), lowered(query), none, none);
    }
}

/// Automated accounts are told by their ids, by their names, or by a flag in the payload of any item
/// of their context. Nobody else is taken for one.
pub proof fn law_bot_like(candidate: CandidateView)
    ensures
        bot_id(candidate.id) ==> bot_like(candidate),
        candidate.name is Some && bot_name(candidate.name->0) ==> bot_like(candidate),
        forall|i: int|
            0 <= i < candidate.context.len() && bot_flag((#[trigger] candidate.context[i]).payload)
                ==> bot_like(candidate),
        bot_like(candidate) && !bot_id(candidate.id) && !(candidate.name is Some && bot_name(
            candidate.name->0,
        )) ==> exists|i: int|
            0 <= i < candidate.context.len() && bot_flag((#[trigger] candidate.context[i]).payload),
{
}

/// The higher score ranks higher, whatever the ids, and of two with the same score the one whose id
/// comes first. Behind each rank comes what was written last, where lists are by recency.
pub proof fn law_ranks(a: CandidateView, b: CandidateView)
    ensures
        score_less(b.score, a.score) ==> higher_ranked(a, b) && !higher_ranked(b, a),
        a.score == b.score ==> (higher_ranked(a, b) <==> text_less(a.id, b.id)),
        match (a.last_message_at_ms, b.last_message_at_ms) {
            (Some(x), Some(y)) => x > y ==> more_recent(a, b) && !more_recent(b, a),
            (Some(_), None) => more_recent(a, b) && !more_recent(b, a),
            _ => true,
        },
        a.last_message_at_ms == b.last_message_at_ms ==> (more_recent(a, b) <==> text_less(
            a.id,
            b.id,
        )),
{
    crate::score::law_score_order(a.score, b.score, a.score);
}

/// A page shows the contacts of its list in their order, each under its id, with its name, its score
/// and its last message, and Telegram contacts as they are displayed.
pub proof fn law_page_contents(
    candidates: Seq<CandidateView>,
    index: int,
    limit: int,
    ids: Map<Seq<char>, Seq<char>>,
    i: int,
)
    requires
        pairwise(candidates, rank_order()),
        -1 <= index < candidates.len(),
        limit > 0,
        0 <= i < limit,
        index + 1 + i < candidates.len(),
    ensures
        ({
            let page = score_page(candidates, limit, score_place(candidates, index), ids);
            let shown = page.candidates[i];
            let candidate = candidates[index + 1 + i];
            &&& i < page.candidates.len()
            &&& shown.id == candidate.id
            &&& shown.name == candidate.name
            &&& shown.score == candidate.score
            &&& shown.last_message_at_ms == candidate.last_message_at_ms
            &&& shown.display == display_of(candidate, ids)
            &&& shown.avatar is None
            &&& shown.context.len() == 0
        }),
{
    law_score_pages(candidates, index, limit, ids);
}

/// The same of the list by recency.
pub proof fn law_recent_page_contents(
    candidates: Seq<CandidateView>,
    index: int,
    limit: int,
    ids: Map<Seq<char>, Seq<char>>,
    i: int,
)
    requires
        pairwise(candidates, recency_order()),
        -1 <= index < candidates.len(),
        limit > 0,
        0 <= i < limit,
        index + 1 + i < candidates.len(),
    ensures
        ({
            let page = recent_page(candidates, limit, recent_place(candidates, index), ids);
            let shown = page.candidates[i];
            let candidate = candidates[index + 1 + i];
            &&& i < page.candidates.len()
            &&& shown.id == candidate.id
            &&& shown.name == candidate.name
            &&& shown.score == candidate.score
            &&& shown.last_message_at_ms == candidate.last_message_at_ms
            &&& shown.display == display_of(candidate, ids)
            &&& shown.avatar is None
            &&& shown.context.len() == 0
        }),
{
    law_recent_pages(candidates, index, limit, ids);
}

/// A candidate as a contact keeps its avatar and its context.
pub proof fn law_contact_contents(candidate: CandidateView, ids: Map<Seq<char>, Seq<char>>)
    ensures
        contact_of(candidate, ids).id == candidate.id,
        contact_of(candidate, ids).avatar == candidate.avatar,
        contact_of(candidate, ids).name == candidate.name,
        contact_of(candidate, ids).context == candidate.context,
        contact_of(candidate, ids).score == candidate.score,
        contact_of(candidate, ids).last_message_at_ms == candidate.last_message_at_ms,
        contact_of(candidate, ids).display == display_of(candidate, ids),
{
}

/// A Telegram contact is displayed by its name where that is a name, or else by its username with an
/// `@`, or else as a Telegram contact. Contacts of other connectors have no display.
pub proof fn law_display_cases(candidate: CandidateView, ids: Map<Seq<char>, Seq<char>>)
    ensures
        ({
            let display = display_of(candidate, ids);
            let name = cleaned(candidate.name);
            let is_name = name is Some && name->0 != candidate.id && !ids.contains_key(name->0);
            let own = match candidate.public_username {
                Some(username) => public_username(username),
                None => None,
            };
            let username = if own is Some {
                own
            } else {
                username_in_id(candidate.id)
            };
            &&& !telegram_id(candidate.id) ==> display is None
            &&& telegram_id(candidate.id) ==> {
                &&& display is Some
                &&& display->0.public_username == username
                &&& username is Some ==> display->0.username_label == Some("@"@ + username->0)
                    && display->0.unavailable_reason is None
                &&& username is None ==> display->0.username_label is None
                &&& is_name ==> display->0.name == name && display->0.label == name->0
                &&& !is_name ==> display->0.name is None
                &&& !is_name && username is Some ==> display->0.label == "@"@ + username->0
                &&& !is_name && username is None ==> display->0.label == "Telegram contact"@
                    && display->0.unavailable_reason == Some("display_identity_unavailable"@)
                &&& is_name && username is None ==> display->0.unavailable_reason == Some(
                    "no_public_username"@,
                )
            }
        }),
{
}

} // verus!
