//! The contacts that the user wrote with last.

use crate::collect::{candidate_from_metadata, merge_metadata, peer_candidate, with_metadata};
use crate::context::{earlier, is_earlier};
use crate::models::{Candidate, CandidateView};
use crate::names::{
    later_time, merge_candidate_last_message_at_ms, merge_candidate_public_username,
    merge_telegram_name, merged_telegram_name, merged_username, username_in_id,
};
use crate::order::{law_sorting_orders, sorted_by, stable_sort, views, weak_order, Order};
use crate::peer_metadata::{MetadataView, TelegramPeerMetadata};
use crate::score::{greater_score, score_max, SCORE_FLOOR};
use crate::text::{
    as_text, comes_before, first_of, law_order_irreflexive, law_order_total, law_order_transitive,
    same_text, text_less,
};
use crate::text_map::{
    distinct_keys, entry_list, lemma_merged_none, lemma_merged_step, lists_values, map_of,
    merged_map, TextMap,
};
use vstd::prelude::*;

verus! {

/// The contact id of the service account of Telegram.
pub open spec fn service_id() -> Seq<char> {
    "telegram-user-id@777000"@
}

/// The recent candidate that a peer cache tells of: none for the service account, nor for a contact
/// without messages.
pub open spec fn recent_seen() -> spec_fn(Seq<char>, Option<CandidateView>, MetadataView) -> Option<
    CandidateView,
> {
    |id: Seq<char>, existing: Option<CandidateView>, metadata: MetadataView|
        if id == service_id() || metadata.last_message_at_ms is None {
            None
        } else {
            let candidate = match existing {
                Some(candidate) => candidate,
                None => peer_candidate(id, metadata),
            };
            Some(
                CandidateView {
                    score: score_max(candidate.score, SCORE_FLOOR),
                    ..with_metadata(candidate, metadata)
                },
            )
        }
}

/// A candidate of one account merged with the same of another.
pub open spec fn recent_merged() -> spec_fn(
    Seq<char>,
    Option<CandidateView>,
    CandidateView,
) -> Option<CandidateView> {
    |id: Seq<char>, existing: Option<CandidateView>, candidate: CandidateView|
        match existing {
            Some(present) => Some(
                CandidateView {
                    name: merged_telegram_name(present.name, candidate.name),
                    public_username: merged_username(
                        present.public_username,
                        candidate.public_username,
                    ),
                    avatar: first_of(present.avatar, candidate.avatar),
                    score: score_max(present.score, candidate.score),
                    last_message_at_ms: later_time(
                        present.last_message_at_ms,
                        candidate.last_message_at_ms,
                    ),
                    ..present
                },
            ),
            None => Some(candidate),
        }
}

/// Recent contacts are ordered by their last messages, the latest first, and by their ids.
pub open spec fn more_recent(a: CandidateView, b: CandidateView) -> bool {
    earlier(b.last_message_at_ms, a.last_message_at_ms) || (a.last_message_at_ms
        == b.last_message_at_ms && text_less(a.id, b.id))
}

pub struct ByRecency;

impl Order<Candidate> for ByRecency {
    open spec fn precedes(a: CandidateView, b: CandidateView) -> bool {
        more_recent(a, b)
    }

    fn is_before(a: &Candidate, b: &Candidate) -> (r: bool) {
        is_earlier(b.last_message_at_ms, a.last_message_at_ms) || (a.last_message_at_ms
            == b.last_message_at_ms && comes_before(a.id.as_str(), b.id.as_str()))
    }
}

pub open spec fn recency_order() -> spec_fn(CandidateView, CandidateView) -> bool {
    |a: CandidateView, b: CandidateView| <ByRecency as Order<Candidate>>::precedes(a, b)
}

/// Collects the recent candidates that the peer cache of an account tells of.
pub fn collect_recent_telegram_account_candidates(metadata: TextMap<TelegramPeerMetadata>) -> (r:
    TextMap<Candidate>)
    ensures
        r@ == merged_map(Map::<Seq<char>, CandidateView>::empty(), metadata@, recent_seen()),
{
    let mut by_id: TextMap<Candidate> = TextMap::new();
    let entries = metadata.into_entries();
    let ghost list = entry_list(entries@);
    let ghost all = entries@;
    proof {
        lemma_merged_none(Map::<Seq<char>, CandidateView>::empty(), recent_seen());
        assert(list.take(0) =~= Seq::empty());
    }
    for entry in it: entries
        invariant
            it.seq() == all,
            list == entry_list(all),
            distinct_keys(list),
            by_id@ == merged_map(
                Map::<Seq<char>, CandidateView>::empty(),
                map_of(list.take(it.index())),
                recent_seen(),
            ),
    {
        proof {
            lemma_merged_step(
                Map::<Seq<char>, CandidateView>::empty(),
                list,
                it.index(),
                recent_seen(),
            );
        }
        let id = entry.key;
        if !same_text(id.as_str(), "telegram-user-id@777000")
            && entry.value.last_message_at_ms.is_some() {
            let mut candidate = candidate_from_metadata(id.as_str(), &entry.value);
            candidate.score = greater_score(candidate.score, SCORE_FLOOR);
            merge_metadata(&mut candidate, entry.value);
            by_id.insert(id, candidate);
        }
    }
    assert(list.take(list.len() as int) =~= list);
    by_id
}

/// Merges the recent candidates of another account.
pub fn merge_recent_telegram_candidates(
    by_id: &mut TextMap<Candidate>,
    candidates: TextMap<Candidate>,
)
    ensures
        final(by_id)@ == merged_map(old(by_id)@, candidates@, recent_merged()),
{
    let entries = candidates.into_entries();
    let ghost list = entry_list(entries@);
    let ghost all = entries@;
    proof {
        lemma_merged_none(by_id@, recent_merged());
        assert(list.take(0) =~= Seq::empty());
    }
    for entry in it: entries
        invariant
            it.seq() == all,
            list == entry_list(all),
            distinct_keys(list),
            by_id@ == merged_map(old(by_id)@, map_of(list.take(it.index())), recent_merged()),
    {
        let ghost known = by_id@;
        proof {
            lemma_merged_step(old(by_id)@, list, it.index(), recent_merged());
        }
        let id = entry.key;
        let candidate = entry.value;
        let merged = match by_id.take(id.as_str()) {
            Some(existing) => {
                let mut existing = existing;
                existing.score = greater_score(existing.score, candidate.score);
                merge_candidate_last_message_at_ms(
                    &mut existing.last_message_at_ms,
                    candidate.last_message_at_ms,
                );
                merge_telegram_name(&mut existing.name, &candidate.name);
                merge_candidate_public_username(
                    &mut existing.public_username,
                    as_text(&candidate.public_username),
                );
                if existing.avatar.is_none() {
                    existing.avatar = candidate.avatar;
                }
                existing
            },
            None => candidate,
        };
        let ghost key = id@;
        let ghost value = merged@;
        by_id.insert(id, merged);
        assert(known.remove(key).insert(key, value) =~= known.insert(key, value));
    }
    assert(list.take(list.len() as int) =~= list);
}

/// The recent contacts in their order.
pub fn sort_recent_candidates(candidates: Vec<Candidate>) -> (r: Vec<Candidate>)
    ensures
        views(r@) == sorted_by(views(candidates@), recency_order()),
{
    stable_sort::<Candidate, ByRecency>(candidates)
}

/// The order of recent contacts.
pub proof fn lemma_recency_order()
    ensures
        weak_order(recency_order(), |candidate: CandidateView| true),
{
    let before = recency_order();
    assert forall|a: CandidateView, b: CandidateView| #[trigger] before(a, b) implies !before(
        b,
        a,
    ) by {
        law_order_irreflexive(a.id);
        if text_less(a.id, b.id) && text_less(b.id, a.id) {
            law_order_transitive(a.id, b.id, a.id);
        }
    }
    assert forall|a: CandidateView, b: CandidateView, c: CandidateView|
        !(#[trigger] before(a, b)) && !(#[trigger] before(b, c)) implies !before(a, c) by {
        law_order_total(a.id, b.id);
        law_order_total(b.id, c.id);
        law_order_irreflexive(a.id);
        if text_less(b.id, a.id) && text_less(c.id, b.id) {
            law_order_transitive(c.id, b.id, a.id);
        }
        if text_less(a.id, c.id) && text_less(c.id, a.id) {
            law_order_transitive(a.id, c.id, a.id);
        }
    }
}

/// Recent contacts are listed with the latest messages first.
pub proof fn law_recent_first(candidates: Seq<CandidateView>)
    ensures
        forall|i: int, j: int|
            0 <= i < j < candidates.len() ==> !more_recent(
                #[trigger] sorted_by(candidates, recency_order())[j],
                #[trigger] sorted_by(candidates, recency_order())[i],
            ),
{
    let sorted = sorted_by(candidates, recency_order());
    let before = recency_order();
    lemma_recency_order();
    law_sorting_orders(candidates, before, |candidate: CandidateView| true);
    crate::order::law_sorting_keeps_items(candidates, before);
    assert forall|i: int, j: int| 0 <= i < j < candidates.len() implies !more_recent(
        #[trigger] sorted[j],
        #[trigger] sorted[i],
    ) by {
        assert(!before(sorted[j], sorted[i]));
    }
}

/// The service account of Telegram is no recent contact, and every recent contact has a last
/// message.
pub proof fn law_recent_contacts(metadata: Map<Seq<char>, MetadataView>)
    ensures
        ({
            let recent = merged_map(
                Map::<Seq<char>, CandidateView>::empty(),
                metadata,
                recent_seen(),
            );
            &&& !recent.contains_key(service_id())
            &&& forall|id: Seq<char>| #[trigger]
                recent.contains_key(id) ==> recent[id].id == id && recent[id].last_message_at_ms
                    == metadata[id].last_message_at_ms && recent[id].last_message_at_ms is Some
        }),
{
}

/// What one account of Telegram tells of its recent contacts.
#[derive(Debug)]
pub struct RecentAccount {
    /// Whether they are complete.
    pub ready: bool,
    pub candidates: TextMap<Candidate>,
}

pub ghost struct RecentAccountView {
    pub ready: bool,
    pub candidates: Map<Seq<char>, CandidateView>,
}

impl View for RecentAccount {
    type V = RecentAccountView;

    open spec fn view(&self) -> RecentAccountView {
        RecentAccountView { ready: self.ready, candidates: self.candidates@ }
    }
}

/// The recent contacts of all accounts.
#[derive(Debug)]
pub struct TelegramRecentContacts {
    pub ready: bool,
    pub candidates: Vec<Candidate>,
}

/// The recent contacts of several accounts, by their ids.
pub open spec fn recent_of_accounts(accounts: Seq<RecentAccountView>) -> Map<
    Seq<char>,
    CandidateView,
>
    decreases accounts.len(),
{
    if accounts.len() == 0 {
        Map::empty()
    } else {
        merged_map(
            recent_of_accounts(accounts.drop_last()),
            accounts.last().candidates,
            recent_merged(),
        )
    }
}

/// Lists the recent contacts of all accounts, the latest first. They are complete where those of
/// every account are.
pub fn recent_telegram_contacts(accounts: Vec<RecentAccount>) -> (r: TelegramRecentContacts)
    ensures
        r.ready == forall|i: int| 0 <= i < accounts@.len() ==> (#[trigger] accounts@[i]).ready,
        exists|listed: Seq<CandidateView>| #[trigger]
            lists_values(listed, recent_of_accounts(views(accounts@))) && views(r.candidates@)
                == sorted_by(listed, recency_order()),
{
    let ghost first = accounts@;
    let ghost all = views(accounts@);
    let mut ready = true;
    let mut by_id: TextMap<Candidate> = TextMap::new();
    for account in it: accounts
        invariant
            it.seq() == first,
            all == views(first),
            ready == forall|i: int| 0 <= i < it.index() ==> (#[trigger] first[i]).ready,
            by_id@ == recent_of_accounts(all.take(it.index())),
    {
        proof {
            assert(all.take(it.index() + 1).drop_last() =~= all.take(it.index()));
            assert(all.take(it.index() + 1).last() == account@);
            assert(first[it.index()] == account);
        }
        if !account.ready {
            ready = false;
        }
        merge_recent_telegram_candidates(&mut by_id, account.candidates);
    }
    assert(all.take(all.len() as int) =~= all);
    let values = by_id.into_values();
    let ghost listed = views(values@);
    let candidates = sort_recent_candidates(values);
    assert(lists_values(listed, recent_of_accounts(all)));
    TelegramRecentContacts { ready, candidates }
}

/// Every recent contact of several accounts stands under its own id and is a recent contact of one
/// of them, where that is so of each account.
pub proof fn law_recent_of_accounts(accounts: Seq<RecentAccountView>)
    requires
        forall|i: int, id: Seq<char>|
            #![trigger accounts[i].candidates.contains_key(id)]
            0 <= i < accounts.len() && accounts[i].candidates.contains_key(id)
                ==> accounts[i].candidates[id].id == id,
    ensures
        forall|id: Seq<char>| #[trigger]
            recent_of_accounts(accounts).contains_key(id) ==> recent_of_accounts(accounts)[id].id
                == id && exists|i: int|
                0 <= i < accounts.len() && #[trigger] accounts[i].candidates.contains_key(id),
    decreases accounts.len(),
{
    if accounts.len() > 0 {
        let rest = accounts.drop_last();
        let before = recent_of_accounts(rest);
        assert forall|i: int, id: Seq<char>|
            #![trigger rest[i].candidates.contains_key(id)]
            0 <= i < rest.len() && rest[i].candidates.contains_key(
                id,
            ) implies rest[i].candidates[id].id == id by {
            assert(accounts[i].candidates.contains_key(id));
        }
        law_recent_of_accounts(rest);
        assert forall|id: Seq<char>| #[trigger]
            recent_of_accounts(accounts).contains_key(id) implies recent_of_accounts(
            accounts,
        )[id].id == id && exists|i: int|
            0 <= i < accounts.len() && #[trigger] accounts[i].candidates.contains_key(id) by {
            let last = accounts.len() - 1;
            if before.contains_key(id) {
                let k = choose|k: int|
                    0 <= k < rest.len() && #[trigger] rest[k].candidates.contains_key(id);
                assert(accounts[k].candidates.contains_key(id));
            }
            if accounts.last().candidates.contains_key(id) {
                assert(accounts[last].candidates.contains_key(id));
            }
        }
    }
}

/// Who is a recent contact of an account, and how it is listed: every contact with a last message but
/// the service account, as the peer cache tells of it.
pub proof fn law_recent_contact(metadata: Map<Seq<char>, MetadataView>, id: Seq<char>)
    ensures
        ({
            let recent = merged_map(
                Map::<Seq<char>, CandidateView>::empty(),
                metadata,
                recent_seen(),
            );
            let told = metadata[id];
            &&& recent.contains_key(id) <==> metadata.contains_key(id)
                && told.last_message_at_ms is Some && id != "telegram-user-id@777000"@
            &&& recent.contains_key(id) ==> recent[id] == (CandidateView {
                id,
                name: told.name,
                public_username: if told.public_username is Some {
                    told.public_username
                } else {
                    username_in_id(id)
                },
                avatar: told.avatar,
                score: 0x3f84_7ae1_47ae_147b,
                last_message_at_ms: told.last_message_at_ms,
                context: Seq::empty(),
            })
        }),
{
    if let Some(name) = metadata[id].name {
        crate::text::law_trimmed_again(name);
    }
}

/// What two accounts tell of the same recent contact: what the first tells stays, gaps are filled, and
/// the fuller name, the greater score and the later message count. What only one account tells is
/// taken as it is.
pub proof fn law_recent_contacts_merge(
    known: Map<Seq<char>, CandidateView>,
    others: Map<Seq<char>, CandidateView>,
    id: Seq<char>,
)
    ensures
        ({
            let after = merged_map(known, others, recent_merged());
            let now = after[id];
            let a = known[id];
            let b = others[id];
            &&& after.contains_key(id) <==> known.contains_key(id) || others.contains_key(id)
            &&& known.contains_key(id) && !others.contains_key(id) ==> now == a
            &&& !known.contains_key(id) && others.contains_key(id) ==> now == b
            &&& known.contains_key(id) && others.contains_key(id) ==> {
                &&& now.id == a.id
                &&& now.context == a.context
                &&& a.avatar is Some ==> now.avatar == a.avatar
                &&& a.avatar is None ==> now.avatar == b.avatar
                &&& now.name == merged_telegram_name(a.name, b.name)
                &&& now.public_username == merged_username(a.public_username, b.public_username)
                &&& now.last_message_at_ms == a.last_message_at_ms || now.last_message_at_ms
                    == b.last_message_at_ms
                &&& a.last_message_at_ms is Some ==> now.last_message_at_ms is Some
                    && now.last_message_at_ms->0 >= a.last_message_at_ms->0
                &&& b.last_message_at_ms is Some ==> now.last_message_at_ms is Some
                    && now.last_message_at_ms->0 >= b.last_message_at_ms->0
                &&& now.score == a.score || now.score == b.score
                &&& now.score == score_max(a.score, b.score)
            }
        }),
{
}

/// Every recent contact of an account is one of all accounts, and no other contact is. An account
/// more is merged after the others.
pub proof fn law_recent_of_all(
    accounts: Seq<RecentAccountView>,
    more: RecentAccountView,
    id: Seq<char>,
)
    ensures
        recent_of_accounts(accounts).contains_key(id) <==> exists|i: int|
            0 <= i < accounts.len() && #[trigger] accounts[i].candidates.contains_key(id),
        recent_of_accounts(accounts.push(more)) == merged_map(
            recent_of_accounts(accounts),
            more.candidates,
            recent_merged(),
        ),
        accounts.len() == 0 ==> recent_of_accounts(accounts) == Map::<
            Seq<char>,
            CandidateView,
        >::empty(),
    decreases accounts.len(),
{
    assert(accounts.push(more).drop_last() =~= accounts);
    if accounts.len() > 0 {
        let rest = accounts.drop_last();
        let last = accounts.len() - 1;
        law_recent_of_all(rest, more, id);
        if recent_of_accounts(accounts).contains_key(id) {
            if recent_of_accounts(rest).contains_key(id) {
                let k = choose|k: int|
                    0 <= k < rest.len() && #[trigger] rest[k].candidates.contains_key(id);
                assert(accounts[k].candidates.contains_key(id));
            } else {
                assert(accounts[last].candidates.contains_key(id));
            }
        }
        if exists|i: int|
            0 <= i < accounts.len() && #[trigger] accounts[i].candidates.contains_key(id) {
            let k = choose|k: int|
                0 <= k < accounts.len() && #[trigger] accounts[k].candidates.contains_key(id);
            if k < last {
                assert(rest[k].candidates.contains_key(id));
            }
        }
    }
}

/// Of two recent contacts the one with the later message comes first, one with a message before one
/// without, and of two with the same the one with the lesser id.
pub proof fn law_recency(a: CandidateView, b: CandidateView)
    ensures
        a.last_message_at_ms is Some && b.last_message_at_ms is None ==> more_recent(a, b)
            && !more_recent(b, a),
        a.last_message_at_ms is Some && b.last_message_at_ms is Some && a.last_message_at_ms->0
            > b.last_message_at_ms->0 ==> more_recent(a, b) && !more_recent(b, a),
        a.last_message_at_ms == b.last_message_at_ms ==> (more_recent(a, b) <==> text_less(
            a.id,
            b.id,
        )),
{
}

} // verus!
