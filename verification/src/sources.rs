//! All the sources of candidates together: the accounts of Telegram, the connectors and the history.

use crate::collect::{
    collect_telegram_peer_cache_candidates, drafts_grow, keyed, law_contacts_collected,
    law_history_collected, law_peer_cache_collected, law_ranked_collected, merge_connector_contacts,
    merge_history_candidate_run, merge_ranked_telegram_candidates, peer_seen, with_all_ranked,
    with_contacts, with_history, with_run_contacts, HistoryRun, RunView,
};
use crate::history::bot_flag;
use crate::models::{
    Candidate, CandidateContextOptions, CandidateDraft, CandidateView, ConnectorContact,
    ContactView, DraftView,
};
use crate::names::bot_id;
use crate::order::views;
use crate::peer_metadata::{MetadataView, TelegramPeerMetadata};
use crate::text::{as_text, law_trimming, nonblank, opt_text};
use crate::text_map::{lookup, merged_map, TextMap};
use vstd::prelude::*;

verus! {

/// What one account of Telegram tells.
#[derive(Debug)]
pub struct AccountContacts {
    /// What its peer cache tells, under first ids.
    pub metadata: TextMap<TelegramPeerMetadata>,
    /// The contact id of the account itself.
    pub self_contact_id: Option<String>,
    /// The candidates that its messages show, with their scores.
    pub ranked: Vec<Candidate>,
}

pub ghost struct AccountView {
    pub metadata: Map<Seq<char>, MetadataView>,
    pub self_contact_id: Option<Seq<char>>,
    pub ranked: Seq<CandidateView>,
}

impl View for AccountContacts {
    type V = AccountView;

    open spec fn view(&self) -> AccountView {
        AccountView {
            metadata: self.metadata@,
            self_contact_id: opt_text(self.self_contact_id),
            ranked: views(self.ranked@),
        }
    }
}

/// What one connector tells when it is asked for its contacts.
#[derive(Debug)]
pub struct ConnectorAnswer {
    pub contacts: Vec<ConnectorContact>,
    /// The normalized form of each id that has one and that the connector may own.
    pub ids: TextMap<String>,
}

pub ghost struct AnswerView {
    pub contacts: Seq<ContactView>,
    pub ids: Map<Seq<char>, Seq<char>>,
}

impl View for ConnectorAnswer {
    type V = AnswerView;

    open spec fn view(&self) -> AnswerView {
        AnswerView { contacts: views(self.contacts@), ids: self.ids@ }
    }
}

/// The drafts after an account told of its contacts: first its peer cache, then its messages.
pub open spec fn with_account(
    drafts: Map<Seq<char>, DraftView>,
    account: AccountView,
) -> Map<Seq<char>, DraftView> {
    with_all_ranked(
        merged_map(drafts, account.metadata, peer_seen(account.self_contact_id)),
        account.ranked,
    )
}

/// The drafts after several accounts told of their contacts.
pub open spec fn with_accounts(
    drafts: Map<Seq<char>, DraftView>,
    accounts: Seq<AccountView>,
) -> Map<Seq<char>, DraftView>
    decreases accounts.len(),
{
    if accounts.len() == 0 {
        drafts
    } else {
        with_account(with_accounts(drafts, accounts.drop_last()), accounts.last())
    }
}

/// The drafts after several connectors told of their contacts.
pub open spec fn with_answers(
    drafts: Map<Seq<char>, DraftView>,
    answers: Seq<AnswerView>,
    options: CandidateContextOptions,
) -> Map<Seq<char>, DraftView>
    decreases answers.len(),
{
    if answers.len() == 0 {
        drafts
    } else {
        with_contacts(
            with_answers(drafts, answers.drop_last(), options),
            answers.last().contacts,
            answers.last().ids,
            options,
        )
    }
}

/// The drafts after several runs.
pub open spec fn with_runs(
    drafts: Map<Seq<char>, DraftView>,
    runs: Seq<RunView>,
    options: CandidateContextOptions,
    names: Map<Seq<char>, Seq<char>>,
    avatars: Map<Seq<char>, Seq<char>>,
) -> Map<Seq<char>, DraftView>
    decreases runs.len(),
{
    if runs.len() == 0 {
        drafts
    } else {
        with_history(
            with_runs(drafts, runs.drop_last(), options, names, avatars),
            runs.last(),
            options,
            names,
            avatars,
        )
    }
}

/// The drafts of all sources. The connectors count only where they are asked.
pub open spec fn gathered(
    accounts: Seq<AccountView>,
    answers: Seq<AnswerView>,
    runs: Seq<RunView>,
    options: CandidateContextOptions,
    names: Map<Seq<char>, Seq<char>>,
    avatars: Map<Seq<char>, Seq<char>>,
) -> Map<Seq<char>, DraftView> {
    let telegram = with_accounts(Map::empty(), accounts);
    let told = if options.include_connector_commands {
        with_answers(telegram, answers, options)
    } else {
        telegram
    };
    with_runs(told, runs, options, names, avatars)
}

/// Collects the contacts that the accounts of Telegram tell of.
pub fn collect_telegram_candidates(
    by_id: &mut TextMap<CandidateDraft>,
    accounts: Vec<AccountContacts>,
)
    ensures
        final(by_id)@ == with_accounts(old(by_id)@, views(accounts@)),
{
    let ghost all = views(accounts@);
    for account in it: accounts
        invariant
            views(it.seq()) == all,
            by_id@ == with_accounts(old(by_id)@, all.take(it.index())),
    {
        proof {
            assert(all.take(it.index() + 1).drop_last() =~= all.take(it.index()));
            assert(all.take(it.index() + 1).last() == account@);
        }
        collect_telegram_peer_cache_candidates(
            by_id,
            account.metadata,
            as_text(&account.self_contact_id),
        );
        merge_ranked_telegram_candidates(by_id, account.ranked);
    }
    assert(all.take(all.len() as int) =~= all);
}

/// Collects the contacts that connectors tell of.
pub fn collect_connector_method_candidates(
    by_id: &mut TextMap<CandidateDraft>,
    answers: Vec<ConnectorAnswer>,
    context_options: CandidateContextOptions,
)
    ensures
        final(by_id)@ == with_answers(old(by_id)@, views(answers@), context_options),
{
    let ghost all = views(answers@);
    for answer in it: answers
        invariant
            views(it.seq()) == all,
            by_id@ == with_answers(old(by_id)@, all.take(it.index()), context_options),
    {
        proof {
            assert(all.take(it.index() + 1).drop_last() =~= all.take(it.index()));
            assert(all.take(it.index() + 1).last() == answer@);
        }
        merge_connector_contacts(by_id, answer.contacts, &answer.ids, context_options);
    }
    assert(all.take(all.len() as int) =~= all);
}

/// Collects the contacts that runs name.
pub fn collect_history_candidates(
    by_id: &mut TextMap<CandidateDraft>,
    runs: &Vec<HistoryRun>,
    context_options: CandidateContextOptions,
    telegram_peer_names: &TextMap<String>,
    telegram_peer_avatars: &TextMap<String>,
)
    ensures
        final(by_id)@ == with_runs(
            old(by_id)@,
            views(runs@),
            context_options,
            telegram_peer_names@,
            telegram_peer_avatars@,
        ),
{
    let ghost all = views(runs@);
    for i in 0..runs.len()
        invariant
            all == views(runs@),
            by_id@ == with_runs(
                old(by_id)@,
                all.take(i as int),
                context_options,
                telegram_peer_names@,
                telegram_peer_avatars@,
            ),
    {
        assert(all.take(i + 1).drop_last() =~= all.take(i as int));
        assert(all.take(i + 1).last() == runs@[i as int]@);
        merge_history_candidate_run(
            &runs[i],
            by_id,
            context_options,
            telegram_peer_names,
            telegram_peer_avatars,
        );
    }
    assert(all.take(all.len() as int) =~= all);
}

/// Collects the candidates of all sources.
pub fn gather_candidates(
    accounts: Vec<AccountContacts>,
    answers: Vec<ConnectorAnswer>,
    runs: &Vec<HistoryRun>,
    context_options: CandidateContextOptions,
    telegram_peer_names: &TextMap<String>,
    telegram_peer_avatars: &TextMap<String>,
) -> (r: TextMap<CandidateDraft>)
    ensures
        r@ == gathered(
            views(accounts@),
            views(answers@),
            views(runs@),
            context_options,
            telegram_peer_names@,
            telegram_peer_avatars@,
        ),
{
    let mut by_id: TextMap<CandidateDraft> = TextMap::new();
    collect_telegram_candidates(&mut by_id, accounts);
    if context_options.uses_connector_commands() {
        collect_connector_method_candidates(&mut by_id, answers, context_options);
    }
    collect_history_candidates(
        &mut by_id,
        runs,
        context_options,
        telegram_peer_names,
        telegram_peer_avatars,
    );
    by_id
}

/// Every candidate that one map holds is in the other.
pub open spec fn keeps_all(
    before: Map<Seq<char>, DraftView>,
    after: Map<Seq<char>, DraftView>,
) -> bool {
    forall|id: Seq<char>| #[trigger] before.contains_key(id) ==> after.contains_key(id)
}

proof fn lemma_account(drafts: Map<Seq<char>, DraftView>, account: AccountView)
    requires
        keyed(drafts),
    ensures
        keyed(with_account(drafts, account)),
        keeps_all(drafts, with_account(drafts, account)),
        forall|id: Seq<char>| #[trigger]
            account.metadata.contains_key(id) && account.self_contact_id != Some(id)
                ==> with_account(drafts, account).contains_key(id),
        forall|i: int|
            0 <= i < account.ranked.len() ==> with_account(drafts, account).contains_key(
                (#[trigger] account.ranked[i]).id,
            ),
{
    let cached = merged_map(drafts, account.metadata, peer_seen(account.self_contact_id));
    law_peer_cache_collected(drafts, account.metadata, account.self_contact_id);
    law_ranked_collected(cached, account.ranked);
    assert(drafts_grow(drafts, cached));
    assert(drafts_grow(cached, with_account(drafts, account)));
}

proof fn lemma_accounts(drafts: Map<Seq<char>, DraftView>, accounts: Seq<AccountView>)
    requires
        keyed(drafts),
    ensures
        keyed(with_accounts(drafts, accounts)),
        forall|i: int, id: Seq<char>|
            #![trigger accounts[i].metadata.contains_key(id)]
            0 <= i < accounts.len() && accounts[i].metadata.contains_key(id)
                && accounts[i].self_contact_id != Some(id) ==> with_accounts(
                drafts,
                accounts,
            ).contains_key(id),
    decreases accounts.len(),
{
    if accounts.len() > 0 {
        let rest = accounts.drop_last();
        lemma_accounts(drafts, rest);
        lemma_account(with_accounts(drafts, rest), accounts.last());
        assert forall|i: int, id: Seq<char>|
            #![trigger accounts[i].metadata.contains_key(id)]
            0 <= i < accounts.len() && accounts[i].metadata.contains_key(id)
                && accounts[i].self_contact_id != Some(id) implies with_accounts(
            drafts,
            accounts,
        ).contains_key(id) by {
            if i < rest.len() {
                assert(rest[i] == accounts[i]);
                assert(rest[i].metadata.contains_key(id));
            }
        }
    }
}

proof fn lemma_answers(
    drafts: Map<Seq<char>, DraftView>,
    answers: Seq<AnswerView>,
    options: CandidateContextOptions,
)
    requires
        keyed(drafts),
    ensures
        keyed(with_answers(drafts, answers, options)),
        keeps_all(drafts, with_answers(drafts, answers, options)),
    decreases answers.len(),
{
    if answers.len() > 0 {
        let rest = answers.drop_last();
        let before = with_answers(drafts, rest, options);
        lemma_answers(drafts, rest, options);
        law_contacts_collected(before, answers.last().contacts, answers.last().ids, options);
        assert(drafts_grow(before, with_answers(drafts, answers, options)));
    }
}

proof fn lemma_runs(
    drafts: Map<Seq<char>, DraftView>,
    runs: Seq<RunView>,
    options: CandidateContextOptions,
    names: Map<Seq<char>, Seq<char>>,
    avatars: Map<Seq<char>, Seq<char>>,
)
    requires
        keyed(drafts),
    ensures
        keyed(with_runs(drafts, runs, options, names, avatars)),
        keeps_all(drafts, with_runs(drafts, runs, options, names, avatars)),
    decreases runs.len(),
{
    if runs.len() > 0 {
        let rest = runs.drop_last();
        let before = with_runs(drafts, rest, options, names, avatars);
        lemma_runs(drafts, rest, options, names, avatars);
        law_history_collected(before, runs.last(), options, names, avatars);
        assert(drafts_grow(before, with_runs(drafts, runs, options, names, avatars)));
    }
}

/// Every candidate that is gathered stands under its own id, and every contact in the peer cache of
/// an account is gathered but the account itself.
pub proof fn law_gathered(
    accounts: Seq<AccountView>,
    answers: Seq<AnswerView>,
    runs: Seq<RunView>,
    options: CandidateContextOptions,
    names: Map<Seq<char>, Seq<char>>,
    avatars: Map<Seq<char>, Seq<char>>,
)
    ensures
        keyed(gathered(accounts, answers, runs, options, names, avatars)),
        forall|i: int, id: Seq<char>|
            #![trigger accounts[i].metadata.contains_key(id)]
            0 <= i < accounts.len() && accounts[i].metadata.contains_key(id)
                && accounts[i].self_contact_id != Some(id) ==> gathered(
                accounts,
                answers,
                runs,
                options,
                names,
                avatars,
            ).contains_key(id),
{
    let telegram = with_accounts(Map::empty(), accounts);
    lemma_accounts(Map::empty(), accounts);
    lemma_answers(telegram, answers, options);
    let told = if options.include_connector_commands {
        with_answers(telegram, answers, options)
    } else {
        telegram
    };
    lemma_runs(told, runs, options, names, avatars);
}

/// An account tells of a contact: its peer cache does, unless it is the account itself, or its
/// messages do.
pub open spec fn account_tells(account: AccountView, id: Seq<char>) -> bool {
    ||| account.metadata.contains_key(id) && account.self_contact_id != Some(id)
    ||| exists|k: int| 0 <= k < account.ranked.len() && (#[trigger] account.ranked[k]).id == id
}

/// A connector names a contact under an id that can be normalized to this one.
pub open spec fn answer_tells(answer: AnswerView, id: Seq<char>) -> bool {
    exists|k: int|
        0 <= k < answer.contacts.len() && lookup(
            answer.ids,
            (#[trigger] answer.contacts[k]).id,
        ) == Some(id)
}

/// A run with a text and a payload names a contact, and neither it nor the sender is a bot.
pub open spec fn run_tells(run: RunView, id: Seq<char>) -> bool {
    &&& exists|k: int| 0 <= k < run.contact_ids.len() && #[trigger] run.contact_ids[k] == id
    &&& run.trigger_info.text_at("text"@) is Some
    &&& nonblank(run.trigger_info.text_at("text"@)->0) is Some
    &&& run.trigger_info.member("payload"@) is Some
    &&& !bot_id(id)
    &&& !bot_flag(run.trigger_info.member("payload"@)->0)
}

proof fn lemma_ranked_ids(
    drafts: Map<Seq<char>, DraftView>,
    ranked: Seq<CandidateView>,
    id: Seq<char>,
)
    ensures
        with_all_ranked(drafts, ranked).contains_key(id) <==> drafts.contains_key(id) || exists|
            k: int,
        |
            0 <= k < ranked.len() && (#[trigger] ranked[k]).id == id,
    decreases ranked.len(),
{
    if ranked.len() > 0 {
        let rest = ranked.drop_last();
        lemma_ranked_ids(drafts, rest, id);
        assert(forall|k: int| 0 <= k < rest.len() ==> #[trigger] ranked[k] == rest[k]);
        assert(ranked[ranked.len() - 1] == ranked.last());
    }
}

proof fn lemma_contact_ids(
    drafts: Map<Seq<char>, DraftView>,
    answer: AnswerView,
    options: CandidateContextOptions,
    id: Seq<char>,
)
    ensures
        with_contacts(drafts, answer.contacts, answer.ids, options).contains_key(id)
            <==> drafts.contains_key(id) || answer_tells(answer, id),
    decreases answer.contacts.len(),
{
    let contacts = answer.contacts;
    if contacts.len() > 0 {
        let rest = contacts.drop_last();
        let before = AnswerView { contacts: rest, ids: answer.ids };
        lemma_contact_ids(drafts, before, options, id);
        assert(forall|k: int| 0 <= k < rest.len() ==> #[trigger] contacts[k] == rest[k]);
        assert(contacts[contacts.len() - 1] == contacts.last());
        if answer_tells(before, id) {
            let k = choose|k: int|
                0 <= k < rest.len() && lookup(answer.ids, (#[trigger] rest[k]).id) == Some(id);
            assert(contacts[k] == rest[k]);
        }
    }
}

proof fn lemma_run_ids(
    drafts: Map<Seq<char>, DraftView>,
    ids: Seq<Seq<char>>,
    run: RunView,
    options: CandidateContextOptions,
    names: Map<Seq<char>, Seq<char>>,
    avatars: Map<Seq<char>, Seq<char>>,
    id: Seq<char>,
)
    requires
        run.trigger_info.member("payload"@) is Some,
    ensures
        with_run_contacts(drafts, ids, run, options, names, avatars).contains_key(id)
            <==> drafts.contains_key(id) || (!bot_id(id) && !bot_flag(
            run.trigger_info.member("payload"@)->0,
        ) && exists|k: int| 0 <= k < ids.len() && #[trigger] ids[k] == id),
    decreases ids.len(),
{
    if ids.len() > 0 {
        let rest = ids.drop_last();
        lemma_run_ids(drafts, rest, run, options, names, avatars, id);
        assert(forall|k: int| 0 <= k < rest.len() ==> #[trigger] ids[k] == rest[k]);
        assert(ids[ids.len() - 1] == ids.last());
    }
}

proof fn lemma_accounts_ids(
    drafts: Map<Seq<char>, DraftView>,
    accounts: Seq<AccountView>,
    id: Seq<char>,
)
    ensures
        with_accounts(drafts, accounts).contains_key(id) <==> drafts.contains_key(id) || exists|
            i: int,
        |
            0 <= i < accounts.len() && account_tells(#[trigger] accounts[i], id),
    decreases accounts.len(),
{
    if accounts.len() > 0 {
        let rest = accounts.drop_last();
        let account = accounts.last();
        lemma_accounts_ids(drafts, rest, id);
        lemma_ranked_ids(
            merged_map(
                with_accounts(drafts, rest),
                account.metadata,
                peer_seen(account.self_contact_id),
            ),
            account.ranked,
            id,
        );
        assert(forall|k: int| 0 <= k < rest.len() ==> #[trigger] accounts[k] == rest[k]);
        assert(accounts[accounts.len() - 1] == account);
    }
}

proof fn lemma_answers_ids(
    drafts: Map<Seq<char>, DraftView>,
    answers: Seq<AnswerView>,
    options: CandidateContextOptions,
    id: Seq<char>,
)
    ensures
        with_answers(drafts, answers, options).contains_key(id) <==> drafts.contains_key(id)
            || exists|i: int| 0 <= i < answers.len() && answer_tells(#[trigger] answers[i], id),
    decreases answers.len(),
{
    if answers.len() > 0 {
        let rest = answers.drop_last();
        lemma_answers_ids(drafts, rest, options, id);
        lemma_contact_ids(with_answers(drafts, rest, options), answers.last(), options, id);
        assert(forall|k: int| 0 <= k < rest.len() ==> #[trigger] answers[k] == rest[k]);
        assert(answers[answers.len() - 1] == answers.last());
    }
}

proof fn lemma_runs_ids(
    drafts: Map<Seq<char>, DraftView>,
    runs: Seq<RunView>,
    options: CandidateContextOptions,
    names: Map<Seq<char>, Seq<char>>,
    avatars: Map<Seq<char>, Seq<char>>,
    id: Seq<char>,
)
    ensures
        with_runs(drafts, runs, options, names, avatars).contains_key(id) <==> drafts.contains_key(
            id,
        ) || exists|i: int| 0 <= i < runs.len() && run_tells(#[trigger] runs[i], id),
    decreases runs.len(),
{
    if runs.len() > 0 {
        let rest = runs.drop_last();
        let run = runs.last();
        let before = with_runs(drafts, rest, options, names, avatars);
        lemma_runs_ids(drafts, rest, options, names, avatars, id);
        if run.trigger_info.member("payload"@) is Some {
            lemma_run_ids(before, run.contact_ids, run, options, names, avatars, id);
        }
        let none = Seq::<char>::empty();
        assert(none + none + none =~= none);
        law_trimming(none, none, none);
        assert(forall|k: int| 0 <= k < rest.len() ==> #[trigger] runs[k] == rest[k]);
        assert(runs[runs.len() - 1] == run);
    }
}

/// A contact is gathered exactly where a source tells of it: an account of Telegram, a connector where
/// connectors are asked, or a run.
pub proof fn law_gathered_ids(
    accounts: Seq<AccountView>,
    answers: Seq<AnswerView>,
    runs: Seq<RunView>,
    options: CandidateContextOptions,
    names: Map<Seq<char>, Seq<char>>,
    avatars: Map<Seq<char>, Seq<char>>,
    id: Seq<char>,
)
    ensures
        gathered(accounts, answers, runs, options, names, avatars).contains_key(id) <==> {
            ||| exists|i: int| 0 <= i < accounts.len() && account_tells(#[trigger] accounts[i], id)
            ||| options.include_connector_commands && exists|i: int|
                0 <= i < answers.len() && answer_tells(#[trigger] answers[i], id)
            ||| exists|i: int| 0 <= i < runs.len() && run_tells(#[trigger] runs[i], id)
        },
{
    let telegram = with_accounts(Map::empty(), accounts);
    lemma_accounts_ids(Map::empty(), accounts, id);
    lemma_answers_ids(telegram, answers, options, id);
    let told = if options.include_connector_commands {
        with_answers(telegram, answers, options)
    } else {
        telegram
    };
    lemma_runs_ids(told, runs, options, names, avatars, id);
}

/// The sources are read in turn: the accounts, each with its peer cache before its messages, then the
/// connectors, then the runs. Of connectors that are not asked nothing counts.
pub proof fn law_gathered_in_turn(
    accounts: Seq<AccountView>,
    answers: Seq<AnswerView>,
    runs: Seq<RunView>,
    options: CandidateContextOptions,
    names: Map<Seq<char>, Seq<char>>,
    avatars: Map<Seq<char>, Seq<char>>,
    account: AccountView,
    answer: AnswerView,
    run: RunView,
)
    ensures
        ({
            let none = Seq::<AnswerView>::empty();
            let still = Seq::<RunView>::empty();
            let cached = gathered(accounts, none, still, options, names, avatars);
            let told = gathered(accounts, answers, still, options, names, avatars);
            let all = gathered(accounts, answers, runs, options, names, avatars);
            &&& gathered(Seq::empty(), none, still, options, names, avatars) == Map::<
                Seq<char>,
                DraftView,
            >::empty()
            &&& gathered(accounts.push(account), none, still, options, names, avatars)
                == with_all_ranked(
                merged_map(cached, account.metadata, peer_seen(account.self_contact_id)),
                account.ranked,
            )
            &&& gathered(accounts, answers.push(answer), still, options, names, avatars) == (
            if options.include_connector_commands {
                with_contacts(told, answer.contacts, answer.ids, options)
            } else {
                told
            })
            &&& !options.include_connector_commands ==> told == cached
            &&& gathered(accounts, answers, runs.push(run), options, names, avatars)
                == with_history(all, run, options, names, avatars)
        }),
{
    assert(accounts.push(account).drop_last() =~= accounts);
    assert(answers.push(answer).drop_last() =~= answers);
    assert(runs.push(run).drop_last() =~= runs);
}

} // verus!
