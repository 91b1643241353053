//! Collecting candidates from peer caches, messages, connectors and past events.

use crate::context::{earlier, push_context, with_item, with_items};
use crate::history::{
    bot_flag, event_name, event_text, history_candidate_name, history_context_text,
    payload_has_bot_flag,
};
use crate::json::{Json, JsonView};
use crate::models::{
    context_limit, kept_payload, Candidate, CandidateContextOptions, CandidateDraft, CandidateView,
    ConnectorContact, ContactContext, ContactView, ContextView, DraftView, TELEGRAM_CONTEXT_LIMIT,
};
use crate::names::{
    bot_id, contact_id_is_bot_like, is_telegram_contact_id, later_time,
    merge_candidate_last_message_at_ms, merge_candidate_name, merge_candidate_public_username,
    merge_telegram_name, merged_contact_name, merged_telegram_name, merged_username,
    public_username, public_username_from_contact_id, sanitize_public_username, telegram_id,
    username_in_id,
};
use crate::order::views;
use crate::peer_metadata::{or_empty, MetadataView, TelegramPeerMetadata};
use crate::score::{greater_score, not_a_number, score_less, score_max, ScoreStep, SCORE_FLOOR};
use crate::text::{
    as_text, clean, first_of, nonblank, opt_str, opt_text, same_text, starts, starts_with, texts,
};
use crate::text_map::{
    distinct_keys, entry_list, lemma_merged_none, lemma_merged_step, lookup, map_of, merged_map,
    TextMap,
};
use vstd::prelude::*;
use vstd::string::*;

verus! {

/// A candidate of whom a peer cache tells, before anything is merged into it.
pub open spec fn peer_candidate(id: Seq<char>, metadata: MetadataView) -> CandidateView {
    CandidateView {
        id,
        name: metadata.name,
        public_username: first_of(metadata.public_username, username_in_id(id)),
        avatar: metadata.avatar,
        score: SCORE_FLOOR,
        last_message_at_ms: metadata.last_message_at_ms,
        context: Seq::empty(),
    }
}

/// A candidate after a peer cache told of it; its score is seen to elsewhere.
pub open spec fn with_metadata(candidate: CandidateView, metadata: MetadataView) -> CandidateView {
    CandidateView {
        name: merged_telegram_name(candidate.name, metadata.name),
        public_username: merged_username(candidate.public_username, metadata.public_username),
        avatar: first_of(candidate.avatar, metadata.avatar),
        last_message_at_ms: later_time(candidate.last_message_at_ms, metadata.last_message_at_ms),
        ..candidate
    }
}

/// A draft without steps.
pub open spec fn fresh_draft(candidate: CandidateView) -> DraftView {
    DraftView { candidate, steps: Seq::empty() }
}

pub open spec fn draft_or(existing: Option<DraftView>, candidate: CandidateView) -> DraftView {
    match existing {
        Some(draft) => draft,
        None => fresh_draft(candidate),
    }
}

/// What a peer cache tells, merged into the drafts: every contact but the local account itself is
/// there afterwards, with at least the lowest score.
pub open spec fn peer_seen(self_contact_id: Option<Seq<char>>) -> spec_fn(
    Seq<char>,
    Option<DraftView>,
    MetadataView,
) -> Option<DraftView> {
    |id: Seq<char>, existing: Option<DraftView>, metadata: MetadataView|
        if self_contact_id == Some(id) {
            None
        } else {
            let draft = draft_or(existing, peer_candidate(id, metadata));
            Some(
                DraftView {
                    candidate: with_metadata(draft.candidate, metadata),
                    steps: draft.steps.push(ScoreStep::AtLeast(SCORE_FLOOR)),
                },
            )
        }
}

/// A draft after the messages of an account showed the candidate.
pub open spec fn with_ranked(existing: Option<DraftView>, candidate: CandidateView) -> DraftView {
    match existing {
        Some(draft) => DraftView {
            candidate: CandidateView {
                name: merged_telegram_name(draft.candidate.name, candidate.name),
                public_username: merged_username(
                    draft.candidate.public_username,
                    candidate.public_username,
                ),
                avatar: first_of(draft.candidate.avatar, candidate.avatar),
                last_message_at_ms: later_time(
                    draft.candidate.last_message_at_ms,
                    candidate.last_message_at_ms,
                ),
                context: with_items(
                    draft.candidate.context,
                    candidate.context,
                    TELEGRAM_CONTEXT_LIMIT as int,
                ),
                ..draft.candidate
            },
            steps: draft.steps.push(ScoreStep::Add(candidate.score)),
        },
        None => fresh_draft(candidate),
    }
}

/// The drafts after the messages of an account showed several candidates.
pub open spec fn with_all_ranked(
    drafts: Map<Seq<char>, DraftView>,
    ranked: Seq<CandidateView>,
) -> Map<Seq<char>, DraftView>
    decreases ranked.len(),
{
    if ranked.len() == 0 {
        drafts
    } else {
        let before = with_all_ranked(drafts, ranked.drop_last());
        let candidate = ranked.last();
        before.insert(candidate.id, with_ranked(lookup(before, candidate.id), candidate))
    }
}

/// The context of a Telegram candidate holds messages.
pub open spec fn enriched(candidate: CandidateView) -> bool {
    telegram_id(candidate.id) && exists|i: int|
        0 <= i < candidate.context.len() && starts(
            (#[trigger] candidate.context[i]).kind,
            "telegram_"@,
        )
}

/// The username that a connector shows a contact with, or the one in its id.
pub open spec fn connector_username(contact: ContactView, id: Seq<char>) -> Option<Seq<char>> {
    first_of(
        match contact.display {
            Some(display) => match display.public_username {
                Some(username) => public_username(username),
                None => None,
            },
            None => None,
        },
        username_in_id(id),
    )
}

/// Context items with what is kept of their payloads.
pub open spec fn kept_items(
    items: Seq<ContextView>,
    options: CandidateContextOptions,
) -> Seq<ContextView> {
    items.map_values(
        |item: ContextView|
            ContextView { payload: kept_payload(options, item.payload), ..item },
    )
}

/// A draft after a connector named the contact.
pub open spec fn with_contact(
    existing: Option<DraftView>,
    id: Seq<char>,
    contact: ContactView,
    options: CandidateContextOptions,
) -> DraftView {
    let username = connector_username(contact, id);
    let draft = draft_or(
        existing,
        CandidateView {
            id,
            name: first_of(contact.name, Some(id)),
            public_username: username,
            avatar: contact.avatar,
            score: 0,
            last_message_at_ms: contact.last_message_at_ms,
            context: Seq::empty(),
        },
    );
    let limit = context_limit(options, id);
    DraftView {
        candidate: CandidateView {
            name: first_of(draft.candidate.name, contact.name),
            public_username: merged_username(draft.candidate.public_username, username),
            avatar: first_of(draft.candidate.avatar, contact.avatar),
            last_message_at_ms: later_time(
                draft.candidate.last_message_at_ms,
                contact.last_message_at_ms,
            ),
            context: if limit == 0 || enriched(draft.candidate) {
                draft.candidate.context
            } else {
                with_items(
                    draft.candidate.context,
                    kept_items(contact.context, options),
                    limit as int,
                )
            },
            ..draft.candidate
        },
        steps: draft.steps.push(ScoreStep::Add(score_max(contact.score, SCORE_FLOOR))),
    }
}

/// The drafts after a connector named several contacts. `ids` holds the normalized form of each id
/// that has one and that the connector may own; other contacts are passed over.
pub open spec fn with_contacts(
    drafts: Map<Seq<char>, DraftView>,
    contacts: Seq<ContactView>,
    ids: Map<Seq<char>, Seq<char>>,
    options: CandidateContextOptions,
) -> Map<Seq<char>, DraftView>
    decreases contacts.len(),
{
    if contacts.len() == 0 {
        drafts
    } else {
        let before = with_contacts(drafts, contacts.drop_last(), ids, options);
        let contact = contacts.last();
        match lookup(ids, contact.id) {
            Some(id) => before.insert(id, with_contact(lookup(before, id), id, contact, options)),
            None => before,
        }
    }
}

/// One run of a workflow, with what was found in the payload that started it.
#[derive(Debug)]
pub struct HistoryRun {
    pub trigger_info: Json,
    /// The contact ids in the payload, normalized.
    pub contact_ids: Vec<String>,
    /// The display name that connectors read from the payload.
    pub display_name: Option<String>,
    /// The bit pattern of what the run adds to the score of its contacts.
    pub score: u64,
    /// The bit pattern of the entropy score of the text of the run as context.
    pub context_entropy: u64,
}

pub ghost struct RunView {
    pub trigger_info: JsonView,
    pub contact_ids: Seq<Seq<char>>,
    pub display_name: Option<Seq<char>>,
    pub score: u64,
    pub context_entropy: u64,
}

impl View for HistoryRun {
    type V = RunView;

    open spec fn view(&self) -> RunView {
        RunView {
            trigger_info: self.trigger_info@,
            contact_ids: texts(self.contact_ids@),
            display_name: opt_text(self.display_name),
            score: self.score,
            context_entropy: self.context_entropy,
        }
    }
}

pub open spec fn run_text(run: RunView) -> Seq<char> {
    or_empty(run.trigger_info.text_at("text"@))
}

pub open spec fn run_time(run: RunView) -> Option<i128> {
    match run.trigger_info.signed_at("received_at_ms"@) {
        Some(time) => Some(time as i128),
        None => None,
    }
}

/// A run as a context item.
pub open spec fn run_item(run: RunView, options: CandidateContextOptions) -> ContextView {
    let payload = run.trigger_info.member("payload"@);
    ContextView {
        kind: "history_message"@,
        text: event_text(payload, run.display_name, run_text(run)),
        timestamp_ms: run_time(run),
        payload: match payload {
            Some(payload) => kept_payload(options, payload),
            None => JsonView::Null,
        },
        entropy: run.context_entropy,
    }
}

/// A draft after a run named the contact.
pub open spec fn with_run(
    existing: Option<DraftView>,
    id: Seq<char>,
    run: RunView,
    options: CandidateContextOptions,
    names: Map<Seq<char>, Seq<char>>,
    avatars: Map<Seq<char>, Seq<char>>,
) -> DraftView {
    let name = event_name(id, run.trigger_info.member("payload"@), run.display_name, names);
    let draft = draft_or(
        existing,
        CandidateView {
            id,
            name: first_of(name, Some(id)),
            public_username: username_in_id(id),
            avatar: lookup(avatars, id),
            score: 0,
            last_message_at_ms: run_time(run),
            context: Seq::empty(),
        },
    );
    let limit = context_limit(options, id);
    DraftView {
        candidate: CandidateView {
            name: merged_contact_name(draft.candidate.name, name),
            public_username: merged_username(draft.candidate.public_username, username_in_id(id)),
            avatar: first_of(draft.candidate.avatar, lookup(avatars, id)),
            last_message_at_ms: later_time(draft.candidate.last_message_at_ms, run_time(run)),
            context: if limit == 0 || enriched(draft.candidate) {
                draft.candidate.context
            } else {
                with_item(draft.candidate.context, run_item(run, options), limit as int)
            },
            ..draft.candidate
        },
        steps: draft.steps.push(ScoreStep::Add(score_max(run.score, SCORE_FLOOR))),
    }
}

/// A run says nothing of a contact that is a bot.
pub open spec fn run_of_bot(run: RunView, id: Seq<char>) -> bool {
    bot_id(id) || match run.trigger_info.member("payload"@) {
        Some(payload) => bot_flag(payload),
        None => false,
    }
}

/// The drafts after a run named several contacts.
pub open spec fn with_run_contacts(
    drafts: Map<Seq<char>, DraftView>,
    ids: Seq<Seq<char>>,
    run: RunView,
    options: CandidateContextOptions,
    names: Map<Seq<char>, Seq<char>>,
    avatars: Map<Seq<char>, Seq<char>>,
) -> Map<Seq<char>, DraftView>
    decreases ids.len(),
{
    if ids.len() == 0 {
        drafts
    } else {
        let before = with_run_contacts(drafts, ids.drop_last(), run, options, names, avatars);
        let id = ids.last();
        if run_of_bot(run, id) {
            before
        } else {
            before.insert(id, with_run(lookup(before, id), id, run, options, names, avatars))
        }
    }
}

/// The drafts after a run. A run without a payload names nobody, and one without a text counts for
/// nothing.
pub open spec fn with_history(
    drafts: Map<Seq<char>, DraftView>,
    run: RunView,
    options: CandidateContextOptions,
    names: Map<Seq<char>, Seq<char>>,
    avatars: Map<Seq<char>, Seq<char>>,
) -> Map<Seq<char>, DraftView> {
    if nonblank(run_text(run)) is None || run.trigger_info.member("payload"@) is None {
        drafts
    } else {
        with_run_contacts(drafts, run.contact_ids, run, options, names, avatars)
    }
}

/// Takes in what a peer cache tells of a candidate.
pub(crate) fn merge_metadata(candidate: &mut Candidate, metadata: TelegramPeerMetadata)
    ensures
        final(candidate)@ == with_metadata(old(candidate)@, metadata@),
{
    merge_candidate_last_message_at_ms(
        &mut candidate.last_message_at_ms,
        metadata.last_message_at_ms,
    );
    merge_telegram_name(&mut candidate.name, &metadata.name);
    merge_candidate_public_username(
        &mut candidate.public_username,
        as_text(&metadata.public_username),
    );
    if candidate.avatar.is_none() {
        candidate.avatar = metadata.avatar;
    }
}

/// A candidate of whom a peer cache tells.
pub(crate) fn candidate_from_metadata(id: &str, metadata: &TelegramPeerMetadata) -> (r: Candidate)
    ensures
        r@ == peer_candidate(id@, metadata@),
{
    let r = Candidate {
        id: id.to_owned(),
        name: metadata.name.clone(),
        public_username: match &metadata.public_username {
            Some(username) => Some(username.clone()),
            None => public_username_from_contact_id(id),
        },
        avatar: metadata.avatar.clone(),
        score: SCORE_FLOOR,
        last_message_at_ms: metadata.last_message_at_ms,
        context: Vec::new(),
    };
    assert(r@.context =~= Seq::<ContextView>::empty());
    r
}

/// A draft without steps.
fn new_draft(candidate: Candidate) -> (r: CandidateDraft)
    ensures
        r@ == fresh_draft(candidate@),
{
    let r = CandidateDraft { candidate, steps: Vec::new() };
    assert(r@.steps =~= Seq::<ScoreStep>::empty());
    r
}

/// Puts a draft under an id from which the former one was taken.
fn put_back(by_id: &mut TextMap<CandidateDraft>, id: String, draft: CandidateDraft, Ghost(before): Ghost<
    Map<Seq<char>, DraftView>,
>)
    requires
        old(by_id)@ == before.remove(id@),
    ensures
        final(by_id)@ == before.insert(id@, draft@),
{
    let ghost key = id@;
    let ghost value = draft@;
    by_id.insert(id, draft);
    assert(before.remove(key).insert(key, value) =~= before.insert(key, value));
}

/// Collects the contacts that a peer cache tells of.
pub fn collect_telegram_peer_cache_candidates(
    by_id: &mut TextMap<CandidateDraft>,
    metadata: TextMap<TelegramPeerMetadata>,
    self_contact_id: Option<&str>,
)
    ensures
        final(by_id)@ == merged_map(
            old(by_id)@,
            metadata@,
            peer_seen(opt_str(self_contact_id)),
        ),
{
    let entries = metadata.into_entries();
    let ghost list = entry_list(entries@);
    let ghost all = entries@;
    let ghost seen = peer_seen(opt_str(self_contact_id));
    proof {
        lemma_merged_none(by_id@, seen);
        assert(list.take(0) =~= Seq::empty());
    }
    for entry in it: entries
        invariant
            it.seq() == all,
            list == entry_list(all),
            distinct_keys(list),
            seen == peer_seen(opt_str(self_contact_id)),
            by_id@ == merged_map(old(by_id)@, map_of(list.take(it.index())), seen),
    {
        let ghost known = by_id@;
        proof {
            lemma_merged_step(old(by_id)@, list, it.index(), seen);
        }
        let id = entry.key;
        let is_self = match self_contact_id {
            Some(own_id) => same_text(own_id, id.as_str()),
            None => false,
        };
        if !is_self {
            let mut draft = match by_id.take(id.as_str()) {
                Some(draft) => draft,
                None => new_draft(candidate_from_metadata(id.as_str(), &entry.value)),
            };
            draft.steps.push(ScoreStep::AtLeast(SCORE_FLOOR));
            merge_metadata(&mut draft.candidate, entry.value);
            put_back(by_id, id, draft, Ghost(known));
        }
    }
    assert(list.take(list.len() as int) =~= list);
}

/// Puts several items to the context of a candidate.
fn push_contexts(candidate: &mut Candidate, items: Vec<ContactContext>, limit: usize)
    ensures
        final(candidate)@ == (CandidateView {
            context: with_items(old(candidate)@.context, views(items@), limit as int),
            ..old(candidate)@
        }),
{
    let ghost all = views(items@);
    let ghost start = candidate@;
    for item in it: items
        invariant
            views(it.seq()) == all,
            candidate@ == (CandidateView {
                context: with_items(start.context, all.take(it.index()), limit as int),
                ..start
            }),
    {
        proof {
            assert(all.take(it.index() + 1).drop_last() =~= all.take(it.index()));
            assert(all.take(it.index() + 1).last() == item@);
        }
        push_context(candidate, item, limit);
    }
    assert(all.take(all.len() as int) =~= all);
}

/// Collects the candidates that the messages of an account show.
pub fn merge_ranked_telegram_candidates(
    by_id: &mut TextMap<CandidateDraft>,
    ranked: Vec<Candidate>,
)
    ensures
        final(by_id)@ == with_all_ranked(old(by_id)@, views(ranked@)),
{
    let ghost all = views(ranked@);
    for candidate in it: ranked
        invariant
            views(it.seq()) == all,
            by_id@ == with_all_ranked(old(by_id)@, all.take(it.index())),
    {
        let ghost known = by_id@;
        let ghost shown = candidate@;
        proof {
            assert(all.take(it.index() + 1).drop_last() =~= all.take(it.index()));
            assert(all.take(it.index() + 1).last() == shown);
        }
        let id = candidate.id.clone();
        let draft = match by_id.take(id.as_str()) {
            Some(existing) => {
                let mut draft = existing;
                draft.steps.push(ScoreStep::Add(candidate.score));
                merge_telegram_name(&mut draft.candidate.name, &candidate.name);
                merge_candidate_public_username(
                    &mut draft.candidate.public_username,
                    as_text(&candidate.public_username),
                );
                merge_candidate_last_message_at_ms(
                    &mut draft.candidate.last_message_at_ms,
                    candidate.last_message_at_ms,
                );
                if draft.candidate.avatar.is_none() {
                    draft.candidate.avatar = candidate.avatar;
                }
                push_contexts(&mut draft.candidate, candidate.context, TELEGRAM_CONTEXT_LIMIT);
                draft
            },
            None => new_draft(candidate),
        };
        put_back(by_id, id, draft, Ghost(known));
    }
    assert(all.take(all.len() as int) =~= all);
}

/// Whether the context of a Telegram candidate holds messages.
pub fn candidate_has_enriched_telegram_context(candidate: &Candidate) -> (r: bool)
    ensures
        r == enriched(candidate@),
{
    if !is_telegram_contact_id(candidate.id.as_str()) {
        return false;
    }
    let ghost context = candidate@.context;
    for i in 0..candidate.context.len()
        invariant
            context == views(candidate.context@),
            context == candidate@.context,
            telegram_id(candidate@.id),
            forall|j: int| 0 <= j < i ==> !starts((#[trigger] context[j]).kind, "telegram_"@),
    {
        assert(context[i as int] == candidate.context@[i as int]@);
        if starts_with(candidate.context[i].kind.as_str(), "telegram_") {
            return true;
        }
    }
    false
}

/// The username that a connector shows a contact with, or the one in its id.
pub fn connector_contact_public_username(contact: &ConnectorContact, id: &str) -> (r: Option<String>)
    ensures
        opt_text(r) == connector_username(contact@, id@),
{
    if let Some(display) = &contact.display {
        if let Some(username) = &display.public_username {
            if let Some(username) = sanitize_public_username(username.as_str()) {
                return Some(username);
            }
        }
    }
    public_username_from_contact_id(id)
}

/// Cuts the payloads of items down to what is kept of them.
fn keep_payloads(items: Vec<ContactContext>, options: CandidateContextOptions) -> (r: Vec<
    ContactContext,
>)
    ensures
        views(r@) == kept_items(views(items@), options),
{
    let ghost all = views(items@);
    let mut out: Vec<ContactContext> = Vec::new();
    for item in it: items
        invariant
            views(it.seq()) == all,
            views(out@) == kept_items(all.take(it.index()), options),
    {
        let ghost before = views(out@);
        let mut item = item;
        assert(all[it.index()] == item@);
        if !options.include_payload {
            item.payload = Json::Null;
        }
        let ghost kept = item@;
        out.push(item);
        assert(views(out@) =~= before.push(kept));
        assert(kept_items(all.take(it.index() + 1), options) =~= kept_items(
            all.take(it.index()),
            options,
        ).push(kept));
    }
    assert(all.take(all.len() as int) =~= all);
    out
}

/// Collects the contacts that a connector names.
pub fn merge_connector_contacts(
    by_id: &mut TextMap<CandidateDraft>,
    contacts: Vec<ConnectorContact>,
    ids: &TextMap<String>,
    context_options: CandidateContextOptions,
)
    ensures
        final(by_id)@ == with_contacts(old(by_id)@, views(contacts@), ids@, context_options),
{
    let ghost all = views(contacts@);
    for contact in it: contacts
        invariant
            views(it.seq()) == all,
            by_id@ == with_contacts(old(by_id)@, all.take(it.index()), ids@, context_options),
    {
        let ghost known = by_id@;
        let ghost named = contact@;
        proof {
            assert(all.take(it.index() + 1).drop_last() =~= all.take(it.index()));
            assert(all.take(it.index() + 1).last() == named);
        }
        if let Some(id) = ids.get(contact.id.as_str()) {
            let id = id.clone();
            let username = connector_contact_public_username(&contact, id.as_str());
            let mut draft = match by_id.take(id.as_str()) {
                Some(draft) => draft,
                None => {
                    let fresh = Candidate {
                        id: id.clone(),
                        name: match &contact.name {
                            Some(name) => Some(name.clone()),
                            None => Some(id.clone()),
                        },
                        public_username: username.clone(),
                        avatar: contact.avatar.clone(),
                        score: 0,
                        last_message_at_ms: contact.last_message_at_ms,
                        context: Vec::new(),
                    };
                    assert(fresh@.context =~= Seq::<ContextView>::empty());
                    new_draft(fresh)
                },
            };
            draft.steps.push(ScoreStep::Add(greater_score(contact.score, SCORE_FLOOR)));
            merge_candidate_last_message_at_ms(
                &mut draft.candidate.last_message_at_ms,
                contact.last_message_at_ms,
            );
            if draft.candidate.name.is_none() {
                draft.candidate.name = contact.name;
            }
            merge_candidate_public_username(
                &mut draft.candidate.public_username,
                as_text(&username),
            );
            if draft.candidate.avatar.is_none() {
                draft.candidate.avatar = contact.avatar;
            }
            let limit = context_options.limit_for_id(id.as_str());
            if limit != 0 && !candidate_has_enriched_telegram_context(&draft.candidate) {
                let items = keep_payloads(contact.context, context_options);
                push_contexts(&mut draft.candidate, items, limit);
            }
            put_back(by_id, id, draft, Ghost(known));
        }
    }
    assert(all.take(all.len() as int) =~= all);
}

/// Takes in what a run tells of one contact.
fn merge_run_contact(
    by_id: &mut TextMap<CandidateDraft>,
    id: &str,
    run: &HistoryRun,
    context_options: CandidateContextOptions,
    telegram_peer_names: &TextMap<String>,
    telegram_peer_avatars: &TextMap<String>,
)
    ensures
        final(by_id)@ == old(by_id)@.insert(
            id@,
            with_run(
                lookup(old(by_id)@, id@),
                id@,
                run@,
                context_options,
                telegram_peer_names@,
                telegram_peer_avatars@,
            ),
        ),
{
    let ghost known = by_id@;
    let payload = run.trigger_info.get("payload");
    let text = match run.trigger_info.str_at("text") {
        Some(text) => text,
        None => {
            proof {
                reveal_strlit("");
                assert(""@ =~= Seq::<char>::empty());
            }
            ""
        },
    };
    let timestamp_ms = match run.trigger_info.i64_at("received_at_ms") {
        Some(time) => Some(time as i128),
        None => None,
    };
    let name = history_candidate_name(id, payload, as_text(&run.display_name), telegram_peer_names);
    let avatar = match telegram_peer_avatars.get(id) {
        Some(avatar) => Some(avatar.clone()),
        None => None,
    };
    let username = public_username_from_contact_id(id);
    let mut draft = match by_id.take(id) {
        Some(draft) => draft,
        None => {
            let fresh = Candidate {
                id: id.to_owned(),
                name: match &name {
                    Some(name) => Some(name.clone()),
                    None => Some(id.to_owned()),
                },
                public_username: username.clone(),
                avatar: avatar.clone(),
                score: 0,
                last_message_at_ms: timestamp_ms,
                context: Vec::new(),
            };
            assert(fresh@.context =~= Seq::<ContextView>::empty());
            new_draft(fresh)
        },
    };
    merge_candidate_name(&mut draft.candidate.name, as_text(&name));
    merge_candidate_public_username(&mut draft.candidate.public_username, as_text(&username));
    merge_candidate_last_message_at_ms(&mut draft.candidate.last_message_at_ms, timestamp_ms);
    if draft.candidate.avatar.is_none() {
        draft.candidate.avatar = avatar;
    }
    draft.steps.push(ScoreStep::Add(greater_score(run.score, SCORE_FLOOR)));
    let limit = context_options.limit_for_id(id);
    if limit != 0 && !candidate_has_enriched_telegram_context(&draft.candidate) {
        let item = ContactContext {
            kind: "history_message".to_owned(),
            text: history_context_text(payload, as_text(&run.display_name), text),
            timestamp_ms,
            payload: match payload {
                Some(payload) => context_options.payload(payload),
                None => Json::Null,
            },
            entropy: run.context_entropy,
        };
        assert(item@ == run_item(run@, context_options));
        push_context(&mut draft.candidate, item, limit);
    }
    put_back(by_id, id.to_owned(), draft, Ghost(known));
}

/// Collects the contacts that a run names.
pub fn merge_history_candidate_run(
    run: &HistoryRun,
    by_id: &mut TextMap<CandidateDraft>,
    context_options: CandidateContextOptions,
    telegram_peer_names: &TextMap<String>,
    telegram_peer_avatars: &TextMap<String>,
)
    ensures
        final(by_id)@ == with_history(
            old(by_id)@,
            run@,
            context_options,
            telegram_peer_names@,
            telegram_peer_avatars@,
        ),
{
    let has_text = match run.trigger_info.str_at("text") {
        Some(text) => clean(text).is_some(),
        None => false,
    };
    if !has_text {
        return ;
    }
    let payload = match run.trigger_info.get("payload") {
        Some(payload) => payload,
        None => return ,
    };
    let ghost ids = texts(run.contact_ids@);
    for i in 0..run.contact_ids.len()
        invariant
            ids == texts(run.contact_ids@),
            run@.trigger_info.member("payload"@) == Some(payload@),
            by_id@ == with_run_contacts(
                old(by_id)@,
                ids.take(i as int),
                run@,
                context_options,
                telegram_peer_names@,
                telegram_peer_avatars@,
            ),
    {
        assert(ids.take(i + 1).drop_last() =~= ids.take(i as int));
        assert(ids.take(i + 1).last() == run.contact_ids@[i as int]@);
        let id = run.contact_ids[i].as_str();
        if !(contact_id_is_bot_like(id) || payload_has_bot_flag(payload)) {
            merge_run_contact(
                by_id,
                id,
                run,
                context_options,
                telegram_peer_names,
                telegram_peer_avatars,
            );
        }
    }
    assert(ids.take(ids.len() as int) =~= ids);
}

/// Every draft stands under the id of its candidate.
pub open spec fn keyed(drafts: Map<Seq<char>, DraftView>) -> bool {
    forall|id: Seq<char>| #[trigger]
        drafts.contains_key(id) ==> drafts[id].candidate.id == id
}

/// Nothing that was known of a candidate is lost: steps are added behind those that were there, the
/// last message is not set back, and a name, a username or an avatar stays one.
pub open spec fn draft_grows(before: DraftView, after: DraftView) -> bool {
    &&& after.candidate.id == before.candidate.id
    &&& before.steps.len() <= after.steps.len()
    &&& after.steps.take(before.steps.len() as int) == before.steps
    &&& !earlier(after.candidate.last_message_at_ms, before.candidate.last_message_at_ms)
    &&& before.candidate.name is Some ==> after.candidate.name is Some
    &&& before.candidate.public_username is Some ==> after.candidate.public_username
        == before.candidate.public_username
    &&& before.candidate.avatar is Some ==> after.candidate.avatar == before.candidate.avatar
}

/// No candidate is lost, and none loses what was known of it.
pub open spec fn drafts_grow(
    before: Map<Seq<char>, DraftView>,
    after: Map<Seq<char>, DraftView>,
) -> bool {
    forall|id: Seq<char>| #[trigger]
        before.contains_key(id) ==> after.contains_key(id) && draft_grows(before[id], after[id])
}

proof fn lemma_same_drafts_grow(drafts: Map<Seq<char>, DraftView>)
    ensures
        drafts_grow(drafts, drafts),
{
    assert forall|id: Seq<char>| #[trigger] drafts.contains_key(id) implies draft_grows(
        drafts[id],
        drafts[id],
    ) by {
        assert(drafts[id].steps.take(drafts[id].steps.len() as int) =~= drafts[id].steps);
    }
}

proof fn lemma_grow_by_insert(
    first: Map<Seq<char>, DraftView>,
    before: Map<Seq<char>, DraftView>,
    id: Seq<char>,
    draft: DraftView,
)
    requires
        drafts_grow(first, before),
        before.contains_key(id) ==> draft_grows(before[id], draft),
    ensures
        drafts_grow(first, before.insert(id, draft)),
{
    let after = before.insert(id, draft);
    assert forall|k: Seq<char>| #[trigger] first.contains_key(k) implies after.contains_key(k)
        && draft_grows(first[k], after[k]) by {
        assert(draft_grows(first[k], before[k]));
        if k == id {
            let n = first[k].steps.len() as int;
            assert(draft.steps.take(n) =~= before[k].steps.take(n));
        }
    }
}

/// Collecting from a peer cache keeps every draft under its id and loses nothing. Every contact of
/// the cache is there afterwards but the local account, which is not added.
pub proof fn law_peer_cache_collected(
    drafts: Map<Seq<char>, DraftView>,
    metadata: Map<Seq<char>, MetadataView>,
    self_contact_id: Option<Seq<char>>,
)
    requires
        keyed(drafts),
    ensures
        ({
            let after = merged_map(drafts, metadata, peer_seen(self_contact_id));
            &&& keyed(after)
            &&& drafts_grow(drafts, after)
            &&& forall|id: Seq<char>| #[trigger]
                metadata.contains_key(id) && self_contact_id != Some(id) ==> after.contains_key(id)
            &&& match self_contact_id {
                Some(id) => after.contains_key(id) == drafts.contains_key(id),
                None => true,
            }
        }),
{
    let after = merged_map(drafts, metadata, peer_seen(self_contact_id));
    assert forall|id: Seq<char>| #[trigger] drafts.contains_key(id) implies after.contains_key(id)
        && draft_grows(drafts[id], after[id]) by {
        let steps = drafts[id].steps;
        assert(steps.take(steps.len() as int) =~= steps);
        assert(steps.push(ScoreStep::AtLeast(SCORE_FLOOR)).take(steps.len() as int) =~= steps);
    }
}

proof fn lemma_ranked_grows(existing: DraftView, candidate: CandidateView)
    ensures
        draft_grows(existing, with_ranked(Some(existing), candidate)),
{
    let steps = existing.steps;
    assert(steps.push(ScoreStep::Add(candidate.score)).take(steps.len() as int) =~= steps);
}

/// Collecting the candidates of messages keeps every draft under its id and loses nothing, and
/// every one of the candidates is there afterwards.
pub proof fn law_ranked_collected(
    drafts: Map<Seq<char>, DraftView>,
    ranked: Seq<CandidateView>,
)
    requires
        keyed(drafts),
    ensures
        keyed(with_all_ranked(drafts, ranked)),
        drafts_grow(drafts, with_all_ranked(drafts, ranked)),
        forall|i: int|
            0 <= i < ranked.len() ==> with_all_ranked(drafts, ranked).contains_key(
                (#[trigger] ranked[i]).id,
            ),
    decreases ranked.len(),
{
    if ranked.len() == 0 {
        lemma_same_drafts_grow(drafts);
    } else {
        let rest = ranked.drop_last();
        law_ranked_collected(drafts, rest);
        let before = with_all_ranked(drafts, rest);
        let candidate = ranked.last();
        if before.contains_key(candidate.id) {
            lemma_ranked_grows(before[candidate.id], candidate);
        }
        lemma_grow_by_insert(
            drafts,
            before,
            candidate.id,
            with_ranked(lookup(before, candidate.id), candidate),
        );
        assert forall|i: int| 0 <= i < ranked.len() implies with_all_ranked(
            drafts,
            ranked,
        ).contains_key((#[trigger] ranked[i]).id) by {
            if i < rest.len() {
                assert(rest[i] == ranked[i]);
            }
        }
    }
}

proof fn lemma_contact_grows(
    existing: DraftView,
    id: Seq<char>,
    contact: ContactView,
    options: CandidateContextOptions,
)
    ensures
        draft_grows(existing, with_contact(Some(existing), id, contact, options)),
{
    let steps = existing.steps;
    assert(steps.push(ScoreStep::Add(score_max(contact.score, SCORE_FLOOR))).take(
        steps.len() as int,
    ) =~= steps);
}

/// Collecting the contacts of a connector keeps every draft under its id and loses nothing.
pub proof fn law_contacts_collected(
    drafts: Map<Seq<char>, DraftView>,
    contacts: Seq<ContactView>,
    ids: Map<Seq<char>, Seq<char>>,
    options: CandidateContextOptions,
)
    requires
        keyed(drafts),
    ensures
        keyed(with_contacts(drafts, contacts, ids, options)),
        drafts_grow(drafts, with_contacts(drafts, contacts, ids, options)),
    decreases contacts.len(),
{
    if contacts.len() == 0 {
        lemma_same_drafts_grow(drafts);
    } else {
        let rest = contacts.drop_last();
        law_contacts_collected(drafts, rest, ids, options);
        let before = with_contacts(drafts, rest, ids, options);
        let contact = contacts.last();
        if let Some(id) = lookup(ids, contact.id) {
            if before.contains_key(id) {
                lemma_contact_grows(before[id], id, contact, options);
            }
            lemma_grow_by_insert(
                drafts,
                before,
                id,
                with_contact(lookup(before, id), id, contact, options),
            );
        }
    }
}

proof fn lemma_run_grows(
    existing: DraftView,
    id: Seq<char>,
    run: RunView,
    options: CandidateContextOptions,
    names: Map<Seq<char>, Seq<char>>,
    avatars: Map<Seq<char>, Seq<char>>,
)
    ensures
        draft_grows(existing, with_run(Some(existing), id, run, options, names, avatars)),
{
    let steps = existing.steps;
    assert(steps.push(ScoreStep::Add(score_max(run.score, SCORE_FLOOR))).take(steps.len() as int)
        =~= steps);
}

proof fn lemma_run_contacts_collected(
    drafts: Map<Seq<char>, DraftView>,
    ids: Seq<Seq<char>>,
    run: RunView,
    options: CandidateContextOptions,
    names: Map<Seq<char>, Seq<char>>,
    avatars: Map<Seq<char>, Seq<char>>,
)
    requires
        keyed(drafts),
    ensures
        ({
            let after = with_run_contacts(drafts, ids, run, options, names, avatars);
            &&& keyed(after)
            &&& drafts_grow(drafts, after)
            &&& forall|id: Seq<char>|
                bot_id(id) && #[trigger] after.contains_key(id) ==> drafts.contains_key(id)
        }),
    decreases ids.len(),
{
    if ids.len() == 0 {
        lemma_same_drafts_grow(drafts);
    } else {
        let rest = ids.drop_last();
        lemma_run_contacts_collected(drafts, rest, run, options, names, avatars);
        let before = with_run_contacts(drafts, rest, run, options, names, avatars);
        let id = ids.last();
        if !run_of_bot(run, id) {
            if before.contains_key(id) {
                lemma_run_grows(before[id], id, run, options, names, avatars);
            }
            lemma_grow_by_insert(
                drafts,
                before,
                id,
                with_run(lookup(before, id), id, run, options, names, avatars),
            );
        }
    }
}

/// Collecting from a run keeps every draft under its id, loses nothing and adds no bot.
pub proof fn law_history_collected(
    drafts: Map<Seq<char>, DraftView>,
    run: RunView,
    options: CandidateContextOptions,
    names: Map<Seq<char>, Seq<char>>,
    avatars: Map<Seq<char>, Seq<char>>,
)
    requires
        keyed(drafts),
    ensures
        ({
            let after = with_history(drafts, run, options, names, avatars);
            &&& keyed(after)
            &&& drafts_grow(drafts, after)
            &&& forall|id: Seq<char>|
                bot_id(id) && #[trigger] after.contains_key(id) ==> drafts.contains_key(id)
        }),
{
    lemma_same_drafts_grow(drafts);
    lemma_run_contacts_collected(drafts, run.contact_ids, run, options, names, avatars);
}

/// What a peer cache tells of a contact goes into its draft and into no other. A contact that was not
/// there is as the cache tells; of one that was, gaps are filled, a fuller name and a later message
/// count, and the score is raised to the floor.
pub proof fn law_peer_in_drafts(
    drafts: Map<Seq<char>, DraftView>,
    metadata: Map<Seq<char>, MetadataView>,
    self_contact_id: Option<Seq<char>>,
    id: Seq<char>,
)
    ensures
        ({
            let after = merged_map(drafts, metadata, peer_seen(self_contact_id));
            let told = metadata[id];
            &&& self_contact_id == Some(id) || !metadata.contains_key(id) ==> lookup(after, id)
                == lookup(drafts, id)
            &&& self_contact_id != Some(id) && metadata.contains_key(id) && !drafts.contains_key(id)
                ==> after.contains_key(id) && after[id] == (DraftView {
                candidate: CandidateView {
                    id,
                    name: told.name,
                    public_username: if told.public_username is Some {
                        told.public_username
                    } else {
                        username_in_id(id)
                    },
                    avatar: told.avatar,
                    score: 0x3f84_7ae1_47ae_147b,
                    last_message_at_ms: told.last_message_at_ms,
                    context: Seq::empty(),
                },
                steps: seq![ScoreStep::AtLeast(0x3f84_7ae1_47ae_147b)],
            })
            &&& self_contact_id != Some(id) && metadata.contains_key(id) && drafts.contains_key(id)
                ==> {
                let known = drafts[id].candidate;
                let now = after[id].candidate;
                &&& after.contains_key(id)
                &&& now.id == known.id
                &&& now.name == merged_telegram_name(known.name, told.name)
                &&& now.public_username == merged_username(
                    known.public_username,
                    told.public_username,
                )
                &&& now.avatar == (if known.avatar is Some {
                    known.avatar
                } else {
                    told.avatar
                })
                &&& now.last_message_at_ms == later_time(
                    known.last_message_at_ms,
                    told.last_message_at_ms,
                )
                &&& now.score == known.score
                &&& now.context == known.context
                &&& after[id].steps == drafts[id].steps.push(
                    ScoreStep::AtLeast(0x3f84_7ae1_47ae_147b),
                )
            }
        }),
{
    let none = Seq::<ScoreStep>::empty();
    let step = ScoreStep::AtLeast(SCORE_FLOOR);
    assert(none.push(step) =~= seq![step]);
    if let Some(name) = metadata[id].name {
        crate::text::law_trimmed_again(name);
    }
}

/// A candidate that messages show goes into its draft and into no other. One that was not there is
/// taken as it is; to one that was there its score is added, and its messages to the context.
pub proof fn law_ranked_in_drafts(
    drafts: Map<Seq<char>, DraftView>,
    candidate: CandidateView,
    id: Seq<char>,
)
    ensures
        ({
            let after = with_all_ranked(drafts, seq![candidate]);
            let known = drafts[id].candidate;
            let now = after[id].candidate;
            &&& id != candidate.id ==> lookup(after, id) == lookup(drafts, id)
            &&& id == candidate.id ==> after.contains_key(id)
            &&& id == candidate.id && !drafts.contains_key(id) ==> now == candidate
                && after[id].steps.len() == 0
            &&& id == candidate.id && drafts.contains_key(id) ==> {
                &&& now.id == known.id
                &&& now.name == merged_telegram_name(known.name, candidate.name)
                &&& now.public_username == merged_username(
                    known.public_username,
                    candidate.public_username,
                )
                &&& now.avatar == (if known.avatar is Some {
                    known.avatar
                } else {
                    candidate.avatar
                })
                &&& now.last_message_at_ms == later_time(
                    known.last_message_at_ms,
                    candidate.last_message_at_ms,
                )
                &&& now.score == known.score
                &&& now.context == with_items(known.context, candidate.context, 100)
                &&& after[id].steps == drafts[id].steps.push(ScoreStep::Add(candidate.score))
            }
        }),
{
    let one = seq![candidate];
    assert(one.drop_last() =~= Seq::<CandidateView>::empty());
    assert(one.last() == candidate);
    assert(with_all_ranked(drafts, Seq::<CandidateView>::empty()) == drafts);
}

/// Several candidates are taken in one after the other.
pub proof fn law_ranked_in_turn(
    drafts: Map<Seq<char>, DraftView>,
    a: Seq<CandidateView>,
    b: Seq<CandidateView>,
)
    ensures
        with_all_ranked(drafts, a + b) == with_all_ranked(with_all_ranked(drafts, a), b),
    decreases b.len(),
{
    if b.len() == 0 {
        assert(a + b =~= a);
    } else {
        law_ranked_in_turn(drafts, a, b.drop_last());
        assert((a + b).drop_last() =~= a + b.drop_last());
        assert((a + b).last() == b.last());
    }
}

/// The draft of a contact after a connector named it: what was known stays, gaps are filled with what
/// the connector tells, its score counts, but at least the floor, and its context is put to the draft
/// unless that holds messages of Telegram already.
pub open spec fn names_contact(
    known: CandidateView,
    now: CandidateView,
    contact: ContactView,
    id: Seq<char>,
    options: CandidateContextOptions,
) -> bool {
    &&& now.id == known.id
    &&& now.name == (if known.name is Some {
        known.name
    } else {
        contact.name
    })
    &&& now.avatar == (if known.avatar is Some {
        known.avatar
    } else {
        contact.avatar
    })
    &&& known.public_username is Some ==> now.public_username == known.public_username
    &&& known.public_username is None ==> now.public_username == merged_username(
        None,
        connector_username(contact, id),
    )
    &&& now.last_message_at_ms == later_time(known.last_message_at_ms, contact.last_message_at_ms)
    &&& now.score == known.score
    &&& context_limit(options, id) == 0 ==> now.context == known.context
    &&& telegram_id(known.id) && (exists|i: int|
        0 <= i < known.context.len() && starts((#[trigger] known.context[i]).kind, "telegram_"@))
        ==> now.context == known.context
    &&& context_limit(options, id) > 0 && !(telegram_id(known.id) && (exists|i: int|
        0 <= i < known.context.len() && starts((#[trigger] known.context[i]).kind, "telegram_"@)))
        ==> now.context == with_items(
        known.context,
        kept_items(contact.context, options),
        context_limit(options, id) as int,
    )
}

/// A contact that a connector names goes into the draft of its normalized id and into no other; one
/// that has none is passed over. A contact that was not there is named by its id where the connector
/// has no name for it.
pub proof fn law_contact_in_drafts(
    drafts: Map<Seq<char>, DraftView>,
    contact: ContactView,
    ids: Map<Seq<char>, Seq<char>>,
    options: CandidateContextOptions,
    id: Seq<char>,
)
    ensures
        ({
            let after = with_contacts(drafts, seq![contact], ids, options);
            let now = after[id].candidate;
            let score = if not_a_number(contact.score) || score_less(
                contact.score,
                0x3f84_7ae1_47ae_147b,
            ) {
                0x3f84_7ae1_47ae_147b
            } else {
                contact.score
            };
            &&& lookup(ids, contact.id) is None ==> after == drafts
            &&& lookup(ids, contact.id) != Some(id) ==> lookup(after, id) == lookup(drafts, id)
            &&& lookup(ids, contact.id) == Some(id) ==> after.contains_key(id)
            &&& lookup(ids, contact.id) == Some(id) && drafts.contains_key(id) ==> names_contact(
                drafts[id].candidate,
                now,
                contact,
                id,
                options,
            ) && after[id].steps == drafts[id].steps.push(ScoreStep::Add(score))
            &&& lookup(ids, contact.id) == Some(id) && !drafts.contains_key(id) ==> {
                &&& now.id == id
                &&& now.name == (if contact.name is Some {
                    contact.name
                } else {
                    Some(id)
                })
                &&& now.public_username == connector_username(contact, id)
                &&& now.avatar == contact.avatar
                &&& now.last_message_at_ms == contact.last_message_at_ms
                &&& now.score == 0
                &&& now.context == (if context_limit(options, id) == 0 {
                    Seq::empty()
                } else {
                    with_items(
                        Seq::empty(),
                        kept_items(contact.context, options),
                        context_limit(options, id) as int,
                    )
                })
                &&& after[id].steps == seq![ScoreStep::Add(score)]
            }
        }),
{
    let one = seq![contact];
    assert(one.drop_last() =~= Seq::<ContactView>::empty());
    assert(one.last() == contact);
    assert(with_contacts(drafts, Seq::<ContactView>::empty(), ids, options) == drafts);
    let step = ScoreStep::Add(score_max(contact.score, SCORE_FLOOR));
    assert(Seq::<ScoreStep>::empty().push(step) =~= seq![step]);
}

/// Several contacts are taken in one after the other.
pub proof fn law_contacts_in_turn(
    drafts: Map<Seq<char>, DraftView>,
    a: Seq<ContactView>,
    b: Seq<ContactView>,
    ids: Map<Seq<char>, Seq<char>>,
    options: CandidateContextOptions,
)
    ensures
        with_contacts(drafts, a + b, ids, options) == with_contacts(
            with_contacts(drafts, a, ids, options),
            b,
            ids,
            options,
        ),
    decreases b.len(),
{
    if b.len() == 0 {
        assert(a + b =~= a);
    } else {
        law_contacts_in_turn(drafts, a, b.drop_last(), ids, options);
        assert((a + b).drop_last() =~= a + b.drop_last());
        assert((a + b).last() == b.last());
    }
}

/// A connector shows a contact with its own username, or else with the one in its id. Of the payloads
/// all is kept or nothing, and of an item everything else.
pub proof fn law_connector_tells(
    contact: ContactView,
    id: Seq<char>,
    options: CandidateContextOptions,
    i: int,
)
    ensures
        ({
            let own = match contact.display {
                Some(display) => match display.public_username {
                    Some(username) => public_username(username),
                    None => None,
                },
                None => None,
            };
            &&& own is Some ==> connector_username(contact, id) == own
            &&& own is None ==> connector_username(contact, id) == username_in_id(id)
        }),
        kept_items(contact.context, options).len() == contact.context.len(),
        0 <= i < contact.context.len() ==> {
            let kept = kept_items(contact.context, options)[i];
            let item = contact.context[i];
            &&& kept.kind == item.kind
            &&& kept.text == item.text
            &&& kept.timestamp_ms == item.timestamp_ms
            &&& kept.entropy == item.entropy
            &&& kept.payload == kept_payload(options, item.payload)
        },
{
}

/// A run is shown with the text of its event, at the time at which that was received.
pub proof fn law_run_item(run: RunView, options: CandidateContextOptions)
    ensures
        ({
            let item = run_item(run, options);
            let payload = run.trigger_info.member("payload"@);
            let text = match run.trigger_info.text_at("text"@) {
                Some(text) => text,
                None => Seq::empty(),
            };
            &&& item.kind == "history_message"@
            &&& item.text == event_text(payload, run.display_name, text)
            &&& match run.trigger_info.signed_at("received_at_ms"@) {
                Some(time) => item.timestamp_ms is Some && item.timestamp_ms->0 == time,
                None => item.timestamp_ms is None,
            }
            &&& payload is Some ==> item.payload == kept_payload(options, payload->0)
            &&& payload is None ==> item.payload == JsonView::Null
            &&& item.entropy == run.context_entropy
        }),
{
}

/// A run that names a contact goes into its draft and into no other. It names nobody without a text
/// or without a payload, no bot, and none of the people in an event of a bot.
pub proof fn law_run_in_drafts(
    drafts: Map<Seq<char>, DraftView>,
    run: RunView,
    options: CandidateContextOptions,
    names: Map<Seq<char>, Seq<char>>,
    avatars: Map<Seq<char>, Seq<char>>,
    id: Seq<char>,
)
    requires
        run.contact_ids == seq![id],
    ensures
        ({
            let after = with_history(drafts, run, options, names, avatars);
            let payload = run.trigger_info.member("payload"@);
            let counts = payload is Some && run.trigger_info.text_at("text"@) is Some && nonblank(
                run.trigger_info.text_at("text"@)->0,
            ) is Some && !bot_id(id) && !bot_flag(payload->0);
            let name = event_name(id, payload, run.display_name, names);
            let item = run_item(run, options);
            let limit = context_limit(options, id);
            let time = item.timestamp_ms;
            let score = if not_a_number(run.score) || score_less(
                run.score,
                0x3f84_7ae1_47ae_147b,
            ) {
                0x3f84_7ae1_47ae_147b
            } else {
                run.score
            };
            let now = after[id].candidate;
            &&& !counts ==> after == drafts
            &&& forall|other: Seq<char>|
                other != id ==> #[trigger] lookup(after, other) == lookup(drafts, other)
            &&& counts ==> after.contains_key(id)
            &&& counts && !drafts.contains_key(id) ==> {
                &&& now.id == id
                &&& now.public_username == username_in_id(id)
                &&& now.avatar == lookup(avatars, id)
                &&& now.last_message_at_ms == time
                &&& now.score == 0
                &&& name is None ==> now.name == Some(id)
                &&& name is Some ==> now.name == name
                &&& limit == 0 ==> now.context.len() == 0
                &&& limit > 0 ==> now.context == with_item(Seq::empty(), item, limit as int)
                &&& after[id].steps == seq![ScoreStep::Add(score)]
            }
            &&& counts && drafts.contains_key(id) ==> {
                let known = drafts[id].candidate;
                &&& now.id == known.id
                &&& now.name == merged_contact_name(known.name, name)
                &&& now.public_username == (if known.public_username is Some {
                    known.public_username
                } else {
                    merged_username(None, username_in_id(id))
                })
                &&& now.avatar == (if known.avatar is Some {
                    known.avatar
                } else {
                    lookup(avatars, id)
                })
                &&& now.last_message_at_ms == later_time(known.last_message_at_ms, time)
                &&& now.score == known.score
                &&& limit == 0 ==> now.context == known.context
                &&& after[id].steps == drafts[id].steps.push(ScoreStep::Add(score))
                &&& !telegram_id(known.id) && limit > 0 ==> now.context == with_item(
                    known.context,
                    item,
                    limit as int,
                )
                &&& telegram_id(known.id) && (exists|i: int|
                    0 <= i < known.context.len() && starts(
                        (#[trigger] known.context[i]).kind,
                        "telegram_"@,
                    )) ==> now.context == known.context
                &&& limit > 0 && (forall|i: int|
                    0 <= i < known.context.len() ==> !starts(
                        (#[trigger] known.context[i]).kind,
                        "telegram_"@,
                    )) ==> now.context == with_item(known.context, item, limit as int)
            }
        }),
{
    let one = seq![id];
    assert(one.drop_last() =~= Seq::<Seq<char>>::empty());
    assert(one.last() == id);
    let none = Seq::<Seq<char>>::empty();
    assert(with_run_contacts(drafts, none, run, options, names, avatars) == drafts);
    let step = ScoreStep::Add(score_max(run.score, SCORE_FLOOR));
    assert(Seq::<ScoreStep>::empty().push(step) =~= seq![step]);
    crate::text::law_trimming(Seq::empty(), Seq::empty(), Seq::empty());
    assert(Seq::<char>::empty() + Seq::<char>::empty() + Seq::<char>::empty()
        =~= Seq::<char>::empty());
    if let Some(name) = event_name(
        id,
        run.trigger_info.member("payload"@),
        run.display_name,
        names,
    ) {
        crate::text::law_trimmed_again(name);
    }
}

/// The contacts of a run are taken in one after the other.
pub proof fn law_run_contacts_in_turn(
    drafts: Map<Seq<char>, DraftView>,
    a: Seq<Seq<char>>,
    b: Seq<Seq<char>>,
    run: RunView,
    options: CandidateContextOptions,
    names: Map<Seq<char>, Seq<char>>,
    avatars: Map<Seq<char>, Seq<char>>,
)
    ensures
        with_run_contacts(drafts, a + b, run, options, names, avatars) == with_run_contacts(
            with_run_contacts(drafts, a, run, options, names, avatars),
            b,
            run,
            options,
            names,
            avatars,
        ),
        nonblank(run_text(run)) is Some && run.trigger_info.member("payload"@) is Some
            ==> with_history(drafts, run, options, names, avatars) == with_run_contacts(
            drafts,
            run.contact_ids,
            run,
            options,
            names,
            avatars,
        ),
    decreases b.len(),
{
    if b.len() == 0 {
        assert(a + b =~= a);
    } else {
        law_run_contacts_in_turn(drafts, a, b.drop_last(), run, options, names, avatars);
        assert((a + b).drop_last() =~= a + b.drop_last());
        assert((a + b).last() == b.last());
    }
}

} // verus!
