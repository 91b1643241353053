//! Ranking of Telegram contacts by the messages in a window.
//!
//! What a contact scores is a sum of floating-point numbers. The window holds everything that goes
//! into that sum: which messages count, which replies, after what time, and on how many days.

use crate::messages::{
    date_order, law_messages_read, messages_on_lines, readable, MessageView, TelegramDiagMessage,
};
use crate::models::{Candidate, CandidateContextOptions, CandidateView, DEFAULT_LIMIT};
use crate::names::{
    fuller_telegram_name, is_bare, later_time, law_usernames_are_bare, merge_candidate_last_message_at_ms,
    merge_candidate_public_username, merge_telegram_name, merged_telegram_name, merged_username,
    public_username_from_contact_id, username_in_id,
};
use crate::order::{sorted_by, views};
use crate::peer_metadata::MetadataView;
use crate::replies::{
    lemma_reply_exists, message_of_contact, message_positions, places_exist, positions, reply_for,
    reply_index, telegram_context, telegram_context_for_candidate, telegram_message_matches_contact,
};
use crate::text::{
    as_text, ascending, cleaned, first_of, insert_text, law_insert_text, put_text, same_text, starts,
    starts_with, text_less, texts,
};
use std::collections::HashMap;
use vstd::prelude::*;

verus! {

/// The milliseconds of a day.
pub const DAY_MS: i128 = 86_400_000;

/// The shortest time that a reply is taken to need.
pub const MIN_REPLY_MS: i128 = 60_000;

/// By how many messages the window grows.
pub const WINDOW_STEP: usize = 1000;

/// A message that was replied to.
#[derive(Debug, Clone, Copy, PartialEq, Eq, Structural)]
pub struct ReplyFact {
    /// The index of the message.
    pub message: usize,
    /// The index of the reply.
    pub reply: usize,
    /// The time between them, but at least `MIN_REPLY_MS`.
    pub delay_ms: i128,
}

/// What goes into the score of a contact.
#[derive(Debug)]
pub struct TelegramScore {
    /// The indices of the messages that the local account sent.
    pub outgoing: Vec<usize>,
    /// The messages that it replied to.
    pub replies: Vec<ReplyFact>,
    /// The days on which messages were exchanged, each once.
    pub personal_days: Vec<i128>,
    /// How many messages are from before the middle of the window.
    pub first_half_count: usize,
    /// How many messages are from after that.
    pub second_half_count: usize,
}

pub ghost struct ScoreView {
    pub outgoing: Seq<usize>,
    pub replies: Seq<ReplyFact>,
    pub personal_days: Seq<i128>,
    pub first_half_count: int,
    pub second_half_count: int,
}

impl View for TelegramScore {
    type V = ScoreView;

    open spec fn view(&self) -> ScoreView {
        ScoreView {
            outgoing: self.outgoing@,
            replies: self.replies@,
            personal_days: self.personal_days@,
            first_half_count: self.first_half_count as int,
            second_half_count: self.second_half_count as int,
        }
    }
}

/// A contact of a window: the candidate, whose score is zero as yet, and what goes into its score.
#[derive(Debug)]
pub struct WindowCandidate {
    pub candidate: Candidate,
    pub score: TelegramScore,
}

pub ghost struct WindowView {
    pub candidate: CandidateView,
    pub score: ScoreView,
}

impl View for WindowCandidate {
    type V = WindowView;

    open spec fn view(&self) -> WindowView {
        WindowView { candidate: self.candidate@, score: self.score@ }
    }
}

/// The contacts of the last messages, and where these messages start.
#[derive(Debug)]
pub struct RankedWindow {
    pub start: usize,
    pub candidates: Vec<WindowCandidate>,
}

/// The time between any two messages can be told.
pub open spec fn spans_fit(messages: Seq<MessageView>) -> bool {
    forall|i: int, j: int|
        0 <= i < messages.len() && 0 <= j < messages.len() ==> i128::MIN <= (
        #[trigger] messages[i]).date_ms - (#[trigger] messages[j]).date_ms <= i128::MAX
}

/// A number divided, with the fraction cut off.
pub open spec fn quotient(n: int, by: int) -> int {
    if n >= 0 {
        n / by
    } else {
        -((-n) / by)
    }
}

/// The middle between the first and the last message.
pub open spec fn midpoint(messages: Seq<MessageView>) -> int {
    if messages.len() == 0 {
        0
    } else {
        messages[0].date_ms + quotient(messages.last().date_ms - messages[0].date_ms, 2)
    }
}

/// The day of a time, counted from the Unix epoch.
pub open spec fn day_of(date_ms: i128) -> i128 {
    quotient(date_ms as int, DAY_MS as int) as i128
}

pub open spec fn reply_delay(messages: Seq<MessageView>, message: int, reply: int) -> int {
    let delay = messages[reply].date_ms - messages[message].date_ms;
    if delay < MIN_REPLY_MS {
        MIN_REPLY_MS as int
    } else {
        delay
    }
}

/// What goes into the score of a contact, of the first `count` messages.
pub open spec fn score_facts(
    messages: Seq<MessageView>,
    by_id: Map<i64, usize>,
    contact_id: Seq<char>,
    count: int,
) -> ScoreView
    decreases count,
{
    if count <= 0 {
        ScoreView {
            outgoing: Seq::empty(),
            replies: Seq::empty(),
            personal_days: Seq::empty(),
            first_half_count: 0,
            second_half_count: 0,
        }
    } else {
        let before = score_facts(messages, by_id, contact_id, count - 1);
        let message = messages[count - 1];
        if message.contact_id != contact_id {
            before
        } else {
            let early = message.date_ms < midpoint(messages);
            let day = day_of(message.date_ms);
            ScoreView {
                outgoing: if message.is_outgoing {
                    before.outgoing.push((count - 1) as usize)
                } else {
                    before.outgoing
                },
                replies: match reply_for(messages, by_id, count - 1, message) {
                    Some(reply) => if message.is_outgoing {
                        before.replies
                    } else {
                        before.replies.push(
                            ReplyFact {
                                message: (count - 1) as usize,
                                reply: reply as usize,
                                delay_ms: reply_delay(messages, count - 1, reply) as i128,
                            },
                        )
                    },
                    None => before.replies,
                },
                personal_days: if message.chat_kind == "user"@ && !before.personal_days.contains(
                    day,
                ) {
                    before.personal_days.push(day)
                } else {
                    before.personal_days
                },
                first_half_count: if early {
                    before.first_half_count + 1
                } else {
                    before.first_half_count
                },
                second_half_count: if early {
                    before.second_half_count
                } else {
                    before.second_half_count + 1
                },
            }
        }
    }
}

/// A candidate as its first message shows it.
pub open spec fn message_candidate(message: MessageView) -> CandidateView {
    CandidateView {
        id: message.contact_id,
        name: message.name,
        public_username: first_of(message.public_username, username_in_id(message.contact_id)),
        avatar: message.avatar,
        score: 0,
        last_message_at_ms: Some(message.date_ms),
        context: Seq::empty(),
    }
}

/// A candidate after one more of its messages.
pub open spec fn with_message(candidate: CandidateView, message: MessageView) -> CandidateView {
    CandidateView {
        name: merged_telegram_name(candidate.name, message.name),
        public_username: merged_username(candidate.public_username, message.public_username),
        avatar: first_of(candidate.avatar, message.avatar),
        last_message_at_ms: later_time(candidate.last_message_at_ms, Some(message.date_ms)),
        ..candidate
    }
}

/// The candidate that the messages with a contact show. Messages of the local account to itself
/// show none.
pub open spec fn observed(messages: Seq<MessageView>, contact_id: Seq<char>) -> Option<
    CandidateView,
>
    decreases messages.len(),
{
    if messages.len() == 0 {
        None
    } else {
        let before = observed(messages.drop_last(), contact_id);
        let message = messages.last();
        if message_of_contact(message, contact_id) {
            Some(
                with_message(
                    match before {
                        Some(candidate) => candidate,
                        None => message_candidate(message),
                    },
                    message,
                ),
            )
        } else {
            before
        }
    }
}

/// The ids of the contacts of a window, in order.
pub open spec fn window_ids(messages: Seq<MessageView>) -> Seq<Seq<char>>
    decreases messages.len(),
{
    if messages.len() == 0 {
        Seq::empty()
    } else {
        let before = window_ids(messages.drop_last());
        if messages.last().is_self_contact {
            before
        } else {
            insert_text(before, messages.last().contact_id)
        }
    }
}

/// A contact of a window. One that is known by name alone, was never replied to and never written
/// to in person is left out.
pub open spec fn window_candidate(
    messages: Seq<MessageView>,
    contact_id: Seq<char>,
    options: CandidateContextOptions,
) -> Option<WindowView> {
    let by_id = positions(messages);
    let score = score_facts(messages, by_id, contact_id, messages.len() as int);
    match observed(messages, contact_id) {
        Some(candidate) => if score.replies.len() == 0 && starts(contact_id, "telegram@"@)
            && score.personal_days.len() == 0 {
            None
        } else {
            Some(
                WindowView {
                    candidate: CandidateView {
                        context: telegram_context(messages, by_id, contact_id, options),
                        ..candidate
                    },
                    score,
                },
            )
        },
        None => None,
    }
}

/// The contacts with the given ids.
pub open spec fn window_of_ids(
    messages: Seq<MessageView>,
    ids: Seq<Seq<char>>,
    options: CandidateContextOptions,
) -> Seq<WindowView>
    decreases ids.len(),
{
    if ids.len() == 0 {
        Seq::empty()
    } else {
        let before = window_of_ids(messages, ids.drop_last(), options);
        match window_candidate(messages, ids.last(), options) {
            Some(candidate) => before.push(candidate),
            None => before,
        }
    }
}

/// The contacts of a window, by their ids.
pub open spec fn window(messages: Seq<MessageView>, options: CandidateContextOptions) -> Seq<
    WindowView,
> {
    window_of_ids(messages, window_ids(messages), options)
}

/// Where the messages start that are looked at: the last `considered` ones, or more where these
/// have too few contacts.
pub open spec fn ranked_start(
    messages: Seq<MessageView>,
    considered: int,
    options: CandidateContextOptions,
) -> int
    decreases
            (if considered < messages.len() {
                messages.len() - considered
            } else {
                0
            }),
{
    if considered >= messages.len() || window(
        messages.skip(messages.len() - considered),
        options,
    ).len() >= DEFAULT_LIMIT {
        if considered >= messages.len() {
            0
        } else {
            messages.len() - considered
        }
    } else {
        ranked_start(messages, considered + WINDOW_STEP, options)
    }
}

/// What goes into the score of a contact.
fn contact_score(
    messages: &[TelegramDiagMessage],
    by_id: &HashMap<i64, usize>,
    contact_id: &str,
    middle: i128,
) -> (r: TelegramScore)
    requires
        places_exist(by_id@, messages@.len()),
        spans_fit(views(messages@)),
        middle == midpoint(views(messages@)),
    ensures
        r@ == score_facts(views(messages@), by_id@, contact_id@, messages@.len() as int),
{
    let ghost all = views(messages@);
    let mut score = TelegramScore {
        outgoing: Vec::new(),
        replies: Vec::new(),
        personal_days: Vec::new(),
        first_half_count: 0,
        second_half_count: 0,
    };
    for i in 0..messages.len()
        invariant
            all == views(messages@),
            places_exist(by_id@, messages@.len()),
            spans_fit(all),
            middle == midpoint(all),
            score.first_half_count + score.second_half_count <= i,
            score@ == score_facts(all, by_id@, contact_id@, i as int),
    {
        let message = &messages[i];
        assert(all[i as int] == message@);
        proof {
            lemma_reply_exists(all, by_id@, i as int, message@);
        }
        if same_text(message.contact_id.as_str(), contact_id) {
            if same_text(message.chat_kind.as_str(), "user") {
                let day = message.date_ms / DAY_MS;
                assert(day == day_of(message.date_ms));
                let mut known = false;
                for k in 0..score.personal_days.len()
                    invariant
                        known == exists|j: int|
                            0 <= j < k && #[trigger] score.personal_days@[j] == day,
                {
                    if score.personal_days[k] == day {
                        known = true;
                    }
                }
                if !known {
                    score.personal_days.push(day);
                }
            }
            if message.date_ms < middle {
                score.first_half_count = score.first_half_count + 1;
            } else {
                score.second_half_count = score.second_half_count + 1;
            }
            if message.is_outgoing {
                score.outgoing.push(i);
            } else if let Some(reply) = reply_index(messages, by_id, i, message) {
                assert(all[reply as int] == messages@[reply as int]@);
                let delay = messages[reply].date_ms - message.date_ms;
                score.replies.push(
                    ReplyFact {
                        message: i,
                        reply,
                        delay_ms: if delay < MIN_REPLY_MS {
                            MIN_REPLY_MS
                        } else {
                            delay
                        },
                    },
                );
            }
        }
    }
    score
}

/// How long ago a time is, but at least a day.
pub open spec fn age(now_ms: i128, timestamp_ms: i128) -> int {
    if now_ms - timestamp_ms < DAY_MS {
        DAY_MS as int
    } else {
        now_ms - timestamp_ms
    }
}

/// How long ago a time is, but at least a day. What counts the less the older it is is divided by
/// this.
pub fn elapsed_ms(now_ms: i128, timestamp_ms: i128) -> (r: i128)
    requires
        i128::MIN <= now_ms - timestamp_ms <= i128::MAX,
    ensures
        r == age(now_ms, timestamp_ms),
{
    let delta = now_ms - timestamp_ms;
    if delta < DAY_MS {
        DAY_MS
    } else {
        delta
    }
}

impl TelegramScore {
    /// On how many days messages were exchanged, but at least one.
    pub fn day_count(&self) -> (r: usize)
        ensures
            r == (if self@.personal_days.len() < 1 {
                1
            } else {
                self@.personal_days.len() as int
            }),
            r == vstd::math::max(1, self@.personal_days.len() as int),
    {
        if self.personal_days.len() < 1 {
            1
        } else {
            self.personal_days.len()
        }
    }

    /// How many messages are from before and from after the middle of the window, at least one each.
    pub fn halves(&self) -> (r: (usize, usize))
        ensures
            r.0 == (if self@.first_half_count < 1 {
                1
            } else {
                self@.first_half_count
            }),
            r.1 == (if self@.second_half_count < 1 {
                1
            } else {
                self@.second_half_count
            }),
            r.0 == vstd::math::max(1, self@.first_half_count as int),
            r.1 == vstd::math::max(1, self@.second_half_count as int),
    {
        let first = if self.first_half_count < 1 {
            1
        } else {
            self.first_half_count
        };
        let second = if self.second_half_count < 1 {
            1
        } else {
            self.second_half_count
        };
        (first, second)
    }
}

/// The candidate that the messages with a contact show.
fn observed_candidate(messages: &[TelegramDiagMessage], contact_id: &str) -> (r: Option<Candidate>)
    ensures
        match r {
            Some(candidate) => observed(views(messages@), contact_id@) == Some(candidate@),
            None => observed(views(messages@), contact_id@) is None,
        },
{
    let ghost all = views(messages@);
    let mut found: Option<Candidate> = None;
    for i in 0..messages.len()
        invariant
            all == views(messages@),
            match found {
                Some(candidate) => observed(all.take(i as int), contact_id@) == Some(candidate@),
                None => observed(all.take(i as int), contact_id@) is None,
            },
    {
        assert(all.take(i + 1).drop_last() =~= all.take(i as int));
        assert(all.take(i + 1).last() == messages@[i as int]@);
        let message = &messages[i];
        if telegram_message_matches_contact(message, contact_id) {
            let mut entry = match found {
                Some(candidate) => candidate,
                None => {
                    let fresh = Candidate {
                        id: message.contact_id.clone(),
                        name: message.name.clone(),
                        public_username: match &message.public_username {
                            Some(username) => Some(username.clone()),
                            None => public_username_from_contact_id(message.contact_id.as_str()),
                        },
                        avatar: message.avatar.clone(),
                        score: 0,
                        last_message_at_ms: Some(message.date_ms),
                        context: Vec::new(),
                    };
                    assert(fresh@.context =~= message_candidate(message@).context);
                    fresh
                },
            };
            merge_telegram_name(&mut entry.name, &message.name);
            merge_candidate_public_username(
                &mut entry.public_username,
                as_text(&message.public_username),
            );
            merge_candidate_last_message_at_ms(&mut entry.last_message_at_ms, Some(message.date_ms));
            if entry.avatar.is_none() {
                entry.avatar = message.avatar.clone();
            }
            found = Some(entry);
        }
    }
    assert(all.take(all.len() as int) =~= all);
    found
}

/// The ids of the contacts of a window, in order.
fn ids_in_window(messages: &[TelegramDiagMessage]) -> (r: Vec<String>)
    ensures
        texts(r@) == window_ids(views(messages@)),
{
    let ghost all = views(messages@);
    let mut ids: Vec<String> = Vec::new();
    assert(texts(ids@) =~= window_ids(all.take(0)));
    for i in 0..messages.len()
        invariant
            all == views(messages@),
            texts(ids@) == window_ids(all.take(i as int)),
    {
        assert(all.take(i + 1).drop_last() =~= all.take(i as int));
        assert(all.take(i + 1).last() == messages@[i as int]@);
        if !messages[i].is_self_contact {
            put_text(&mut ids, messages[i].contact_id.clone());
        }
    }
    assert(all.take(all.len() as int) =~= all);
    ids
}

/// Finds the contacts of a window and what goes into their scores.
pub fn score_telegram_window_with_options(
    messages: &[TelegramDiagMessage],
    context_options: CandidateContextOptions,
) -> (r: Vec<WindowCandidate>)
    requires
        spans_fit(views(messages@)),
    ensures
        views(r@) == window(views(messages@), context_options),
{
    let ghost all = views(messages@);
    let mut out: Vec<WindowCandidate> = Vec::new();
    let n = messages.len();
    if n == 0 {
        assert(views(out@) =~= window(all, context_options));
        return out;
    }
    assert(all[0] == messages@[0]@ && all[n - 1] == messages@[n - 1]@);
    let middle = messages[0].date_ms + (messages[n - 1].date_ms - messages[0].date_ms) / 2;
    let by_id = message_positions(messages);
    let ids = ids_in_window(messages);
    let ghost names = texts(ids@);
    assert(views(out@) =~= window_of_ids(all, names.take(0), context_options));
    for i in 0..ids.len()
        invariant
            all == views(messages@),
            by_id@ == positions(all),
            places_exist(by_id@, messages@.len()),
            spans_fit(all),
            middle == midpoint(all),
            names == texts(ids@),
            views(out@) == window_of_ids(all, names.take(i as int), context_options),
    {
        assert(names.take(i + 1).drop_last() =~= names.take(i as int));
        assert(names.take(i + 1).last() == ids@[i as int]@);
        let id = ids[i].as_str();
        if let Some(found) = observed_candidate(messages, id) {
            let score = contact_score(messages, &by_id, id, middle);
            if !(score.replies.len() == 0 && starts_with(id, "telegram@")
                && score.personal_days.len() == 0) {
                let mut candidate = found;
                candidate.context = telegram_context_for_candidate(
                    messages,
                    &by_id,
                    id,
                    context_options,
                );
                let item = WindowCandidate { candidate, score };
                let ghost before = views(out@);
                let ghost shown = item@;
                out.push(item);
                assert(views(out@) =~= before.push(shown));
            }
        }
    }
    assert(names.take(names.len() as int) =~= names);
    out
}

/// Scores a window with all the context there is.
pub fn score_telegram_window(messages: &[TelegramDiagMessage]) -> (r: Vec<WindowCandidate>)
    requires
        spans_fit(views(messages@)),
    ensures
        views(r@) == window(
            views(messages@),
            CandidateContextOptions {
                telegram_limit: crate::models::TELEGRAM_CONTEXT_LIMIT,
                other_limit: crate::models::GOOGLE_CONTEXT_LIMIT,
                include_payload: true,
                include_connector_commands: true,
            },
        ),
{
    score_telegram_window_with_options(messages, CandidateContextOptions::full())
}

/// Finds the contacts of the last messages, of more messages where there are too few contacts.
pub fn rank_telegram_messages(
    messages: &Vec<TelegramDiagMessage>,
    context_options: CandidateContextOptions,
) -> (r: RankedWindow)
    requires
        spans_fit(views(messages@)),
    ensures
        r.start == ranked_start(views(messages@), WINDOW_STEP as int, context_options),
        views(r.candidates@) == window(views(messages@).skip(r.start as int), context_options),
{
    let ghost all = views(messages@);
    let n = messages.len();
    let mut considered: usize = if WINDOW_STEP < n {
        WINDOW_STEP
    } else {
        n
    };
    loop
        invariant
            n == messages@.len(),
            all == views(messages@),
            spans_fit(all),
            considered <= n,
            considered == n || ranked_start(all, considered as int, context_options)
                == ranked_start(all, WINDOW_STEP as int, context_options),
            considered == n ==> ranked_start(all, WINDOW_STEP as int, context_options)
                == ranked_start(all, n as int, context_options),
        decreases n - considered,
    {
        let start = n - considered;
        let part = vstd::slice::slice_subrange(messages.as_slice(), start, n);
        assert(views(part@) =~= all.skip(start as int));
        proof {
            assert forall|i: int, j: int|
                0 <= i < part@.len() && 0 <= j < part@.len() implies i128::MIN <= (
            #[trigger] views(part@)[i]).date_ms - (#[trigger] views(part@)[j]).date_ms
                <= i128::MAX by {
                assert(views(part@)[i] == all[start + i] && views(part@)[j] == all[start + j]);
            }
        }
        let candidates = score_telegram_window_with_options(part, context_options);
        assert(views(candidates@).len() == candidates@.len());
        if candidates.len() >= DEFAULT_LIMIT || considered == n {
            return RankedWindow { start, candidates };
        }
        if n - considered > WINDOW_STEP {
            considered = considered + WINDOW_STEP;
        } else {
            assert(ranked_start(all, considered + WINDOW_STEP, context_options) == 0);
            considered = n;
        }
    }
}

/// Some message is one with a contact.
pub open spec fn has_messages(messages: Seq<MessageView>, contact_id: Seq<char>) -> bool {
    exists|k: int| 0 <= k < messages.len() && message_of_contact(#[trigger] messages[k], contact_id)
}

proof fn lemma_has_messages(messages: Seq<MessageView>, contact_id: Seq<char>)
    requires
        messages.len() > 0,
    ensures
        has_messages(messages, contact_id) == (has_messages(messages.drop_last(), contact_id)
            || message_of_contact(messages.last(), contact_id)),
{
    let rest = messages.drop_last();
    if has_messages(messages, contact_id) {
        let k = choose|k: int|
            0 <= k < messages.len() && message_of_contact(#[trigger] messages[k], contact_id);
        if k < rest.len() {
            assert(rest[k] == messages[k]);
        }
    }
    if has_messages(rest, contact_id) {
        let k = choose|k: int|
            0 <= k < rest.len() && message_of_contact(#[trigger] rest[k], contact_id);
        assert(messages[k] == rest[k]);
    }
    if message_of_contact(messages.last(), contact_id) {
        assert(message_of_contact(messages[messages.len() - 1], contact_id));
    }
}

proof fn lemma_observed(messages: Seq<MessageView>, contact_id: Seq<char>)
    ensures
        observed(messages, contact_id) is Some <==> has_messages(messages, contact_id),
        observed(messages, contact_id) is Some ==> observed(messages, contact_id)->0.id
            == contact_id,
    decreases messages.len(),
{
    if messages.len() > 0 {
        lemma_observed(messages.drop_last(), contact_id);
        lemma_has_messages(messages, contact_id);
    }
}

proof fn lemma_window_ids(messages: Seq<MessageView>)
    ensures
        ascending(window_ids(messages)),
        forall|id: Seq<char>| #[trigger]
            window_ids(messages).contains(id) <==> has_messages(messages, id),
    decreases messages.len(),
{
    if messages.len() > 0 {
        let rest = messages.drop_last();
        lemma_window_ids(rest);
        law_insert_text(window_ids(rest), messages.last().contact_id);
        assert forall|id: Seq<char>| #[trigger]
            window_ids(messages).contains(id) <==> has_messages(messages, id) by {
            lemma_has_messages(messages, id);
            assert(window_ids(rest).contains(id) <==> has_messages(rest, id));
        }
    }
}

/// What a choice gives for several ids, where it gives anything.
spec fn picked(ids: Seq<Seq<char>>, pick: spec_fn(Seq<char>) -> Option<WindowView>) -> Seq<
    WindowView,
>
    decreases ids.len(),
{
    if ids.len() == 0 {
        Seq::empty()
    } else {
        let before = picked(ids.drop_last(), pick);
        match pick(ids.last()) {
            Some(candidate) => before.push(candidate),
            None => before,
        }
    }
}

/// What is chosen for an id has that id.
spec fn picks_by_id(pick: spec_fn(Seq<char>) -> Option<WindowView>) -> bool {
    forall|id: Seq<char>| (#[trigger] pick(id)) is Some ==> pick(id)->0.candidate.id == id
}

proof fn lemma_picked(ids: Seq<Seq<char>>, pick: spec_fn(Seq<char>) -> Option<WindowView>)
    requires
        ascending(ids),
        picks_by_id(pick),
    ensures
        ({
            let found = picked(ids, pick);
            &&& forall|i: int, j: int|
                0 <= i < j < found.len() ==> text_less(
                    (#[trigger] found[i]).candidate.id,
                    (#[trigger] found[j]).candidate.id,
                )
            &&& forall|i: int|
                0 <= i < found.len() ==> ids.contains((#[trigger] found[i]).candidate.id) && pick(
                    found[i].candidate.id,
                ) == Some(found[i])
            &&& forall|id: Seq<char>| #[trigger]
                ids.contains(id) && pick(id) is Some ==> found.contains(pick(id)->0)
        }),
    decreases ids.len(),
{
    let found = picked(ids, pick);
    if ids.len() > 0 {
        let rest = ids.drop_last();
        let before = picked(rest, pick);
        assert forall|i: int, j: int| 0 <= i < j < rest.len() implies text_less(
            rest[i],
            rest[j],
        ) by {
            assert(rest[i] == ids[i] && rest[j] == ids[j]);
        }
        lemma_picked(rest, pick);
        assert(ids.contains(ids.last())) by {
            assert(ids[ids.len() - 1] == ids.last());
        }
        assert forall|i: int| 0 <= i < found.len() implies ids.contains(
            (#[trigger] found[i]).candidate.id,
        ) && pick(found[i].candidate.id) == Some(found[i]) by {
            if i < before.len() {
                assert(found[i] == before[i]);
                let k = rest.index_of(before[i].candidate.id);
                assert(ids[k] == before[i].candidate.id);
            }
        }
        assert forall|i: int, j: int| 0 <= i < j < found.len() implies text_less(
            (#[trigger] found[i]).candidate.id,
            (#[trigger] found[j]).candidate.id,
        ) by {
            assert(found[i] == before[i]);
            if j < before.len() {
                assert(found[j] == before[j]);
            } else {
                let k = rest.index_of(before[i].candidate.id);
                assert(ids[k] == before[i].candidate.id);
                assert(text_less(ids[k], ids[ids.len() - 1]));
            }
        }
        assert forall|id: Seq<char>| #[trigger]
            ids.contains(id) && pick(id) is Some implies found.contains(pick(id)->0) by {
            let k = ids.index_of(id);
            if k < rest.len() {
                assert(rest[k] == id);
                assert(rest.contains(id));
                let m = before.index_of(pick(id)->0);
                assert(found[m] == before[m]);
            } else {
                assert(found[found.len() - 1] == pick(id)->0);
            }
        }
    }
}

proof fn lemma_window_picked(
    messages: Seq<MessageView>,
    ids: Seq<Seq<char>>,
    options: CandidateContextOptions,
)
    ensures
        window_of_ids(messages, ids, options) == picked(
            ids,
            |id: Seq<char>| window_candidate(messages, id, options),
        ),
    decreases ids.len(),
{
    if ids.len() > 0 {
        lemma_window_picked(messages, ids.drop_last(), options);
    }
}

proof fn lemma_window_of_ids(
    messages: Seq<MessageView>,
    ids: Seq<Seq<char>>,
    options: CandidateContextOptions,
)
    requires
        ascending(ids),
    ensures
        ({
            let found = window_of_ids(messages, ids, options);
            &&& forall|i: int, j: int|
                0 <= i < j < found.len() ==> text_less(
                    (#[trigger] found[i]).candidate.id,
                    (#[trigger] found[j]).candidate.id,
                )
            &&& forall|i: int|
                0 <= i < found.len() ==> ids.contains((#[trigger] found[i]).candidate.id)
                    && window_candidate(messages, found[i].candidate.id, options) == Some(found[i])
            &&& forall|id: Seq<char>| #[trigger]
                ids.contains(id) && window_candidate(messages, id, options) is Some
                    ==> found.contains(window_candidate(messages, id, options)->0)
        }),
{
    let pick = |id: Seq<char>| window_candidate(messages, id, options);
    assert forall|id: Seq<char>| (#[trigger] pick(id)) is Some implies pick(id)->0.candidate.id
        == id by {
        lemma_observed(messages, id);
    }
    assert(picks_by_id(pick));
    lemma_picked(ids, pick);
    lemma_window_picked(messages, ids, options);
    let found = window_of_ids(messages, ids, options);
    assert forall|i: int| 0 <= i < found.len() implies ids.contains(
        (#[trigger] found[i]).candidate.id,
    ) && window_candidate(messages, found[i].candidate.id, options) == Some(found[i]) by {
        assert(pick(found[i].candidate.id) == Some(found[i]));
    }
    assert forall|id: Seq<char>| #[trigger]
        ids.contains(id) && window_candidate(messages, id, options) is Some implies found.contains(
        window_candidate(messages, id, options)->0,
    ) by {
        assert(pick(id) is Some);
    }
}

/// Some message with a contact stands in a chat with one person.
pub open spec fn met_in_person(messages: Seq<MessageView>, contact_id: Seq<char>) -> bool {
    exists|k: int|
        0 <= k < messages.len() && (#[trigger] messages[k]).contact_id == contact_id
            && messages[k].chat_kind == "user"@
}

/// Some message of a contact was replied to.
pub open spec fn was_answered(messages: Seq<MessageView>, contact_id: Seq<char>) -> bool {
    score_facts(
        messages,
        positions(messages),
        contact_id,
        messages.len() as int,
    ).replies.len() > 0
}

proof fn lemma_personal_days(
    messages: Seq<MessageView>,
    by_id: Map<i64, usize>,
    contact_id: Seq<char>,
    count: int,
)
    requires
        0 <= count <= messages.len(),
    ensures
        score_facts(messages, by_id, contact_id, count).personal_days.len() > 0 <==> met_in_person(
            messages.take(count),
            contact_id,
        ),
    decreases count,
{
    if count > 0 {
        lemma_personal_days(messages, by_id, contact_id, count - 1);
        let rest = messages.take(count - 1);
        let all = messages.take(count);
        let before = score_facts(messages, by_id, contact_id, count - 1);
        assert(all[count - 1] == messages[count - 1]);
        if met_in_person(rest, contact_id) {
            let k = choose|k: int|
                0 <= k < rest.len() && (#[trigger] rest[k]).contact_id == contact_id
                    && rest[k].chat_kind == "user"@;
            assert(all[k] == rest[k]);
        }
        if met_in_person(all, contact_id) {
            let k = choose|k: int|
                0 <= k < all.len() && (#[trigger] all[k]).contact_id == contact_id
                    && all[k].chat_kind == "user"@;
            if k < count - 1 {
                assert(rest[k] == all[k]);
            } else if before.personal_days.contains(day_of(all[k].date_ms)) {
                assert(before.personal_days.len() > 0);
            }
        }
    }
}

/// The contact is listed in a window.
pub open spec fn is_listed(listed: Seq<WindowView>, contact_id: Seq<char>) -> bool {
    exists|i: int| 0 <= i < listed.len() && (#[trigger] listed[i]).candidate.id == contact_id
}

/// The contacts of a window are sorted by their ids, and none comes twice. They are those that the
/// local account exchanged messages with and that are known by number, were met in person or were
/// answered; where all chats are with one person, they are all that messages were exchanged with.
/// The local account itself is not there, where it only wrote to itself.
pub proof fn law_window_contacts(messages: Seq<MessageView>, options: CandidateContextOptions)
    ensures
        forall|i: int, j: int|
            0 <= i < j < window(messages, options).len() ==> text_less(
                (#[trigger] window(messages, options)[i]).candidate.id,
                (#[trigger] window(messages, options)[j]).candidate.id,
            ),
        forall|id: Seq<char>| #[trigger]
            is_listed(window(messages, options), id) <==> has_messages(messages, id) && (!starts(
                id,
                "telegram@"@,
            ) || met_in_person(messages, id) || was_answered(messages, id)),
        (forall|k: int|
            0 <= k < messages.len() ==> (#[trigger] messages[k]).chat_kind == "user"@) ==> forall|
            id: Seq<char>,
        | #[trigger]
            is_listed(window(messages, options), id) <==> has_messages(messages, id),
{
    let ids = window_ids(messages);
    let found = window(messages, options);
    lemma_window_ids(messages);
    lemma_window_of_ids(messages, ids, options);
    assert(messages.take(messages.len() as int) =~= messages);
    assert forall|id: Seq<char>| #[trigger]
        is_listed(found, id) <==> has_messages(messages, id) && (!starts(id, "telegram@"@)
            || met_in_person(messages, id) || was_answered(messages, id)) by {
        lemma_observed(messages, id);
        lemma_personal_days(messages, positions(messages), id, messages.len() as int);
        if is_listed(found, id) {
            let i = choose|i: int|
                0 <= i < found.len() && (#[trigger] found[i]).candidate.id == id;
            assert(window_candidate(messages, id, options) == Some(found[i]));
            assert(ids.contains(id));
        } else if window_candidate(messages, id, options) is Some && has_messages(messages, id) {
            assert(ids.contains(id));
            let i = found.index_of(window_candidate(messages, id, options)->0);
            assert(found[i].candidate.id == id);
        }
    }
    if forall|k: int| 0 <= k < messages.len() ==> (#[trigger] messages[k]).chat_kind == "user"@ {
        assert forall|id: Seq<char>| #[trigger]
            is_listed(found, id) <==> has_messages(messages, id) by {
            if has_messages(messages, id) {
                let k = choose|k: int|
                    0 <= k < messages.len() && message_of_contact(#[trigger] messages[k], id);
                assert(messages[k].chat_kind == "user"@);
                assert(met_in_person(messages, id));
            }
        }
    }
}

/// The number of messages of a contact among the first `count`.
pub open spec fn messages_of(
    messages: Seq<MessageView>,
    contact_id: Seq<char>,
    count: int,
) -> int
    decreases count,
{
    if count <= 0 {
        0
    } else {
        messages_of(messages, contact_id, count - 1) + if messages[count - 1].contact_id
            == contact_id {
            1int
        } else {
            0int
        }
    }
}

/// Every message of a contact counts in one half of the window. It is sent, replied to, or neither.
/// No day counts twice.
pub proof fn law_score_facts(
    messages: Seq<MessageView>,
    by_id: Map<i64, usize>,
    contact_id: Seq<char>,
    count: int,
)
    requires
        0 <= count <= messages.len(),
    ensures
        ({
            let score = score_facts(messages, by_id, contact_id, count);
            &&& score.first_half_count >= 0 && score.second_half_count >= 0
            &&& score.first_half_count + score.second_half_count == messages_of(
                messages,
                contact_id,
                count,
            )
            &&& score.outgoing.len() + score.replies.len() <= messages_of(
                messages,
                contact_id,
                count,
            )
            &&& score.personal_days.no_duplicates()
            &&& score.personal_days.len() <= messages_of(messages, contact_id, count)
        }),
    decreases count,
{
    if count > 0 {
        law_score_facts(messages, by_id, contact_id, count - 1);
    }
}

/// A candidate is dated by the latest of its messages: by one of them, and no other is later.
pub proof fn law_observed_date(messages: Seq<MessageView>, contact_id: Seq<char>)
    requires
        has_messages(messages, contact_id),
    ensures
        observed(messages, contact_id) is Some,
        ({
            let date = observed(messages, contact_id)->0.last_message_at_ms;
            &&& exists|k: int|
                0 <= k < messages.len() && message_of_contact(#[trigger] messages[k], contact_id)
                    && date == Some(messages[k].date_ms)
            &&& forall|k: int|
                0 <= k < messages.len() && message_of_contact(#[trigger] messages[k], contact_id)
                    ==> messages[k].date_ms <= date->0
        }),
    decreases messages.len(),
{
    lemma_observed(messages, contact_id);
    lemma_has_messages(messages, contact_id);
    let rest = messages.drop_last();
    let last = messages.len() - 1;
    let date = observed(messages, contact_id)->0.last_message_at_ms;
    lemma_observed(rest, contact_id);
    if has_messages(rest, contact_id) {
        law_observed_date(rest, contact_id);
        let earlier = observed(rest, contact_id)->0.last_message_at_ms;
        let k = choose|k: int|
            0 <= k < rest.len() && message_of_contact(#[trigger] rest[k], contact_id) && earlier
                == Some(rest[k].date_ms);
        assert(messages[k] == rest[k]);
        assert(message_of_contact(messages[k], contact_id));
        if message_of_contact(messages[last], contact_id) {
            assert(date == later_time(earlier, Some(messages[last].date_ms)));
        }
    } else {
        assert(message_of_contact(messages[last], contact_id));
    }
    assert forall|k: int|
        0 <= k < messages.len() && message_of_contact(
            #[trigger] messages[k],
            contact_id,
        ) implies messages[k].date_ms <= date->0 by {
        if k < last {
            assert(rest[k] == messages[k]);
            assert(message_of_contact(rest[k], contact_id));
        }
    }
}

/// A candidate whose messages tell usernames without a leading `@` has one without it.
pub proof fn law_observed_username(messages: Seq<MessageView>, contact_id: Seq<char>)
    requires
        forall|i: int|
            0 <= i < messages.len() ==> is_bare((#[trigger] messages[i]).public_username),
    ensures
        match observed(messages, contact_id) {
            Some(candidate) => is_bare(candidate.public_username),
            None => true,
        },
    decreases messages.len(),
{
    if messages.len() > 0 {
        let rest = messages.drop_last();
        let message = messages.last();
        assert(messages[messages.len() - 1] == message);
        assert forall|i: int| 0 <= i < rest.len() implies is_bare(
            (#[trigger] rest[i]).public_username,
        ) by {
            assert(rest[i] == messages[i]);
        }
        law_observed_username(rest, contact_id);
        let candidate = match observed(rest, contact_id) {
            Some(candidate) => candidate,
            None => message_candidate(message),
        };
        law_usernames_are_bare(
            message.contact_id,
            candidate.public_username,
            message.public_username,
        );
    }
}

/// The messages that are read from the diagnostics of an account can be ranked: the time between any
/// two of them can be told.
pub proof fn law_read_messages_can_be_ranked(
    lines: Seq<Seq<char>>,
    include_payload: bool,
    self_user_id: Option<i64>,
    known: Map<Seq<char>, MetadataView>,
    ids: Map<Seq<char>, Seq<char>>,
)
    ensures
        spans_fit(
            sorted_by(
                messages_on_lines(lines, include_payload, self_user_id, known, ids),
                date_order(),
            ),
        ),
{
    let read = sorted_by(
        messages_on_lines(lines, include_payload, self_user_id, known, ids),
        date_order(),
    );
    law_messages_read(lines, include_payload, self_user_id, known, ids);
    assert forall|i: int, j: int| 0 <= i < read.len() && 0 <= j < read.len() implies i128::MIN <= (
    #[trigger] read[i]).date_ms - (#[trigger] read[j]).date_ms <= i128::MAX by {
        assert(readable(read[i]) && readable(read[j]));
    }
}

/// The middle between the dates of the first and the last message: half of the way from the one to
/// the other, where half of an odd number of milliseconds is rounded towards the first.
pub open spec fn is_middle(messages: Seq<MessageView>, middle: int) -> bool {
    messages.len() > 0 ==> {
        let first = messages.first().date_ms as int;
        let last = messages.last().date_ms as int;
        if first <= last {
            first <= middle && 2 * (middle - first) <= last - first < 2 * (middle - first) + 2
        } else {
            middle <= first && 2 * (first - middle) <= first - last < 2 * (first - middle) + 2
        }
    }
}

/// The day of a date: the number of whole days of 86400000 milliseconds between it and the epoch,
/// negative before it.
pub open spec fn is_day(date_ms: int, day: int) -> bool {
    if date_ms >= 0 {
        day * 86_400_000 <= date_ms < (day + 1) * 86_400_000
    } else {
        (day - 1) * 86_400_000 < date_ms <= day * 86_400_000
    }
}

proof fn lemma_day(date_ms: i128, day: i128)
    ensures
        is_day(date_ms as int, day as int) <==> day_of(date_ms) == day,
{
    let n = if date_ms >= 0 {
        date_ms as int
    } else {
        -(date_ms as int)
    };
    let d = if date_ms >= 0 {
        day as int
    } else {
        -(day as int)
    };
    assert(n >= 0);
    assert((d * 86_400_000 <= n && n < (d + 1) * 86_400_000) <==> n / 86_400_000 == d)
        by (nonlinear_arith)
        requires
            n >= 0,
    ;
    assert(0 <= n / 86_400_000 <= n) by (nonlinear_arith)
        requires
            n >= 0,
    ;
}

/// What goes into the score of a contact is counted over its messages: the halves by the middle of
/// the window, the messages that were sent, those that were answered with the time that took, and
/// the days of direct messages, each once.
pub open spec fn scored_from(
    messages: Seq<MessageView>,
    contact_id: Seq<char>,
    middle: int,
    score: ScoreView,
) -> bool {
    &&& score.first_half_count == messages.filter(
        |m: MessageView| m.contact_id == contact_id && m.date_ms < middle,
    ).len()
    &&& score.second_half_count == messages.filter(
        |m: MessageView| m.contact_id == contact_id && m.date_ms >= middle,
    ).len()
    &&& forall|i: int, j: int|
        0 <= i < j < score.outgoing.len() ==> score.outgoing[i] < score.outgoing[j]
    &&& forall|k: int|
        0 <= k < messages.len() ==> (score.outgoing.contains(k as usize) <==> ((
        #[trigger] messages[k]).contact_id == contact_id && messages[k].is_outgoing))
    &&& forall|i: int| 0 <= i < score.outgoing.len() ==> #[trigger] score.outgoing[i] < messages.len()
    &&& score.personal_days.no_duplicates()
    &&& forall|day: i128| #[trigger]
        score.personal_days.contains(day) <==> exists|k: int|
            0 <= k < messages.len() && (#[trigger] messages[k]).contact_id == contact_id
                && messages[k].chat_kind == "user"@ && is_day(
                messages[k].date_ms as int,
                day as int,
            )
}

proof fn lemma_score_counts(
    messages: Seq<MessageView>,
    by_id: Map<i64, usize>,
    contact_id: Seq<char>,
    middle: int,
    count: int,
)
    requires
        0 <= count <= messages.len(),
        messages.len() <= usize::MAX,
        middle == midpoint(messages),
    ensures
        scored_from(
            messages.take(count),
            contact_id,
            middle,
            score_facts(messages, by_id, contact_id, count),
        ),
    decreases count,
{
    reveal(Seq::filter);
    let part = messages.take(count);
    let score = score_facts(messages, by_id, contact_id, count);
    if count > 0 {
        lemma_score_counts(messages, by_id, contact_id, middle, count - 1);
        let rest = messages.take(count - 1);
        let before = score_facts(messages, by_id, contact_id, count - 1);
        let message = messages[count - 1];
        let day = day_of(message.date_ms);
        assert(part.drop_last() =~= rest);
        assert(part.last() == message);
        assert(forall|k: int| 0 <= k < rest.len() ==> rest[k] == part[k]);
        assert(part[count - 1] == message);
        assert forall|k: int| 0 <= k < part.len() implies (score.outgoing.contains(k as usize)
            <==> ((#[trigger] part[k]).contact_id == contact_id && part[k].is_outgoing)) by {
            if before.outgoing.contains(k as usize) {
                let j = before.outgoing.index_of(k as usize);
                assert(score.outgoing[j] == k);
                assert(before.outgoing[j] < rest.len());
                assert(rest[k] == part[k]);
            }
            if score.outgoing.contains(k as usize) {
                let j = score.outgoing.index_of(k as usize);
                if j < before.outgoing.len() {
                    assert(before.outgoing[j] == k);
                    assert(before.outgoing.contains(k as usize));
                }
            }
            if k == count - 1 {
                if message.contact_id == contact_id && message.is_outgoing {
                    assert(score.outgoing[score.outgoing.len() - 1] == k);
                }
            } else {
                assert(rest[k] == part[k]);
                assert(before.outgoing.contains(k as usize) <==> (rest[k].contact_id == contact_id
                    && rest[k].is_outgoing));
            }
        }
        assert forall|d: i128| #[trigger] score.personal_days.contains(d) <==> exists|k: int|
            0 <= k < part.len() && (#[trigger] part[k]).contact_id == contact_id
                && part[k].chat_kind == "user"@ && is_day(part[k].date_ms as int, d as int) by {
            lemma_day(message.date_ms, d);
            if before.personal_days.contains(d) {
                let j = before.personal_days.index_of(d);
                assert(score.personal_days[j] == d);
                let k = choose|k: int|
                    0 <= k < rest.len() && (#[trigger] rest[k]).contact_id == contact_id
                        && rest[k].chat_kind == "user"@ && is_day(
                        rest[k].date_ms as int,
                        d as int,
                    );
                assert(part[k] == rest[k]);
            }
            if score.personal_days.contains(d) && !before.personal_days.contains(d) {
                let j = score.personal_days.index_of(d);
                if j < before.personal_days.len() {
                    assert(before.personal_days[j] == d);
                }
                assert(part[count - 1].chat_kind == "user"@);
            }
            if exists|k: int|
                0 <= k < part.len() && (#[trigger] part[k]).contact_id == contact_id
                    && part[k].chat_kind == "user"@ && is_day(part[k].date_ms as int, d as int) {
                let k = choose|k: int|
                    0 <= k < part.len() && (#[trigger] part[k]).contact_id == contact_id
                        && part[k].chat_kind == "user"@ && is_day(
                        part[k].date_ms as int,
                        d as int,
                    );
                if k < count - 1 {
                    assert(rest[k] == part[k]);
                    assert(before.personal_days.contains(d));
                } else if !before.personal_days.contains(d) {
                    assert(day == d);
                    assert(score.personal_days[score.personal_days.len() - 1] == d);
                }
            }
        }
    }
}

proof fn lemma_middle(messages: Seq<MessageView>, middle: int)
    requires
        is_middle(messages, middle),
        messages.len() > 0,
    ensures
        middle == midpoint(messages),
{
    assert(messages.first() == messages[0]);
}

/// The counts that the score of a contact of a window is made of are those of its messages.
pub proof fn law_window_scores(
    messages: Seq<MessageView>,
    options: CandidateContextOptions,
    middle: int,
    i: int,
)
    requires
        messages.len() <= usize::MAX,
        is_middle(messages, middle),
        0 <= i < window(messages, options).len(),
    ensures
        scored_from(
            messages,
            window(messages, options)[i].candidate.id,
            middle,
            window(messages, options)[i].score,
        ),
{
    let found = window(messages, options);
    lemma_window_ids(messages);
    lemma_window_of_ids(messages, window_ids(messages), options);
    let id = found[i].candidate.id;
    assert(window_candidate(messages, id, options) == Some(found[i]));
    lemma_observed(messages, id);
    assert(messages.len() > 0);
    lemma_middle(messages, middle);
    lemma_score_counts(messages, positions(messages), id, middle, messages.len() as int);
    assert(messages.take(messages.len() as int) =~= messages);
}

/// A fact of an answered message: the message is one of the contact and was not sent, the reply is
/// the one that belongs to it, and the time is the one between them, but at least a minute.
pub open spec fn is_answer(
    messages: Seq<MessageView>,
    contact_id: Seq<char>,
    fact: ReplyFact,
) -> bool {
    let k = fact.message as int;
    let r = fact.reply as int;
    &&& k < messages.len()
    &&& messages[k].contact_id == contact_id
    &&& !messages[k].is_outgoing
    &&& reply_for(messages, positions(messages), k, messages[k]) == Some(r)
    &&& fact.delay_ms == vstd::math::max(
        60_000,
        messages[r].date_ms - messages[k].date_ms,
    )
}

proof fn lemma_answers_counted(
    messages: Seq<MessageView>,
    contact_id: Seq<char>,
    count: int,
)
    requires
        0 <= count <= messages.len(),
        messages.len() <= usize::MAX,
        spans_fit(messages),
    ensures
        ({
            let facts = score_facts(messages, positions(messages), contact_id, count).replies;
            &&& forall|i: int, j: int|
                0 <= i < j < facts.len() ==> facts[i].message < facts[j].message
            &&& forall|fact: ReplyFact| #[trigger]
                facts.contains(fact) <==> is_answer(messages, contact_id, fact) && fact.message
                    < count
        }),
    decreases count,
{
    if count > 0 {
        let by_id = positions(messages);
        lemma_answers_counted(messages, contact_id, count - 1);
        let before = score_facts(messages, by_id, contact_id, count - 1).replies;
        let facts = score_facts(messages, by_id, contact_id, count).replies;
        let message = messages[count - 1];
        crate::replies::lemma_positions_exist(messages);
        lemma_reply_exists(messages, by_id, count - 1, message);
        assert forall|i: int, j: int| 0 <= i < j < facts.len() implies facts[i].message
            < facts[j].message by {
            if i < before.len() {
                assert(before.contains(before[i]));
            }
        }
        assert forall|fact: ReplyFact| #[trigger]
            facts.contains(fact) <==> is_answer(messages, contact_id, fact) && fact.message
                < count by {
            if before.contains(fact) {
                let j = before.index_of(fact);
                assert(facts[j] == fact);
            }
            if facts.contains(fact) && !before.contains(fact) {
                let j = facts.index_of(fact);
                if j < before.len() {
                    assert(before[j] == fact);
                }
                let r = fact.reply as int;
                assert(messages[r].date_ms - messages[count - 1].date_ms <= i128::MAX);
            }
            if is_answer(messages, contact_id, fact) && fact.message < count
                && !before.contains(fact) {
                let r = fact.reply as int;
                assert(messages[r].date_ms - messages[count - 1].date_ms <= i128::MAX);
                assert(facts[facts.len() - 1] == fact);
            }
        }
    }
}

/// The answered messages of a contact of a window are all of its messages that were answered, in
/// their order and each once.
pub proof fn law_window_answers(
    messages: Seq<MessageView>,
    options: CandidateContextOptions,
    i: int,
)
    requires
        messages.len() <= usize::MAX,
        spans_fit(messages),
        0 <= i < window(messages, options).len(),
    ensures
        ({
            let found = window(messages, options)[i];
            &&& forall|a: int, b: int|
                0 <= a < b < found.score.replies.len() ==> found.score.replies[a].message
                    < found.score.replies[b].message
            &&& forall|fact: ReplyFact| #[trigger]
                found.score.replies.contains(fact) <==> is_answer(
                    messages,
                    found.candidate.id,
                    fact,
                )
        }),
{
    let found = window(messages, options);
    lemma_window_ids(messages);
    lemma_window_of_ids(messages, window_ids(messages), options);
    let id = found[i].candidate.id;
    assert(window_candidate(messages, id, options) == Some(found[i]));
    lemma_answers_counted(messages, id, messages.len() as int);
}

/// The messages that are looked at are the last thousand, or as many thousands as it takes to find
/// thirty contacts, or all of them where that is not enough.
pub proof fn law_ranked_start(
    messages: Seq<MessageView>,
    options: CandidateContextOptions,
)
    ensures
        ({
            let start = ranked_start(messages, WINDOW_STEP as int, options);
            let looked_at = messages.len() - start;
            &&& 0 <= start <= messages.len()
            &&& start > 0 ==> looked_at % 1000 == 0 && looked_at > 0 && window(
                messages.skip(start),
                options,
            ).len() >= 30
            &&& forall|n: int|
                0 < n < looked_at && n % 1000 == 0 ==> (#[trigger] window(
                    messages.skip(messages.len() - n),
                    options,
                )).len() < 30
        }),
{
    let few = |n: int| too_few(messages, n, options);
    let found = |n: int| ranked_start(messages, n, options);
    assert forall|n: int| #[trigger] few(n) == too_few(messages, n, options) && found(n) == (
    if n >= messages.len() {
        0
    } else if few(n) {
        found(n + 1000)
    } else {
        messages.len() - n
    }) by {
        lemma_start_step(messages, n, options);
    }
    lemma_first_enough(messages.len() as int, few, found, 1000);
    assert forall|n: int|
        #![trigger window(messages.skip(messages.len() - n), options)]
        few(n) == (window(messages.skip(messages.len() - n), options).len() < 30) by {
        reveal(too_few);
    }
    assert(found(1000) == ranked_start(messages, WINDOW_STEP as int, options));
    let start = found(1000);
    assert(messages.skip(messages.len() - (messages.len() - start)) == messages.skip(start));
}

#[verifier::opaque]
spec fn too_few(messages: Seq<MessageView>, n: int, options: CandidateContextOptions) -> bool {
    window(messages.skip(messages.len() - n), options).len() < 30
}

proof fn lemma_start_step(messages: Seq<MessageView>, n: int, options: CandidateContextOptions)
    ensures
        ranked_start(messages, n, options) == (if n >= messages.len() {
            0
        } else if too_few(messages, n, options) {
            ranked_start(messages, n + 1000, options)
        } else {
            messages.len() - n
        }),
{
    reveal(too_few);
}

spec fn steps_back(total: int, few: spec_fn(int) -> bool, found: spec_fn(int) -> int) -> bool {
    forall|n: int|
        #![trigger few(n)]
        found(n) == (if n >= total {
            0
        } else if few(n) {
            found(n + 1000)
        } else {
            total - n
        })
}

proof fn lemma_first_enough(
    total: int,
    few: spec_fn(int) -> bool,
    found: spec_fn(int) -> int,
    considered: int,
)
    requires
        total >= 0,
        considered > 0,
        considered % 1000 == 0,
        steps_back(total, few, found),
    ensures
        ({
            let start = found(considered);
            let looked_at = total - start;
            &&& 0 <= start <= total
            &&& start > 0 ==> looked_at % 1000 == 0 && looked_at >= considered && !few(looked_at)
            &&& forall|n: int|
                considered <= n < looked_at && n % 1000 == 0 ==> #[trigger] few(n)
        }),
    decreases total + 1000 - considered,
{
    let here = few(considered);
    if considered < total && here {
        lemma_first_enough(total, few, found, considered + 1000);
    }
}

/// A candidate has the avatar of the first of its messages that has one.
pub proof fn law_observed_avatar(messages: Seq<MessageView>, contact_id: Seq<char>, k: int)
    requires
        0 <= k < messages.len(),
        message_of_contact(messages[k], contact_id),
        messages[k].avatar is Some,
        forall|j: int|
            0 <= j < k && message_of_contact(#[trigger] messages[j], contact_id)
                ==> messages[j].avatar is None,
    ensures
        observed(messages, contact_id) is Some,
        observed(messages, contact_id)->0.avatar == messages[k].avatar,
        observed(messages, contact_id)->0.id == contact_id,
        observed(messages, contact_id)->0.context.len() == 0,
    decreases messages.len(),
{
    let rest = messages.drop_last();
    lemma_observed(messages, contact_id);
    if k < rest.len() {
        assert(forall|j: int| 0 <= j < rest.len() ==> rest[j] == messages[j]);
        law_observed_avatar(rest, contact_id, k);
    } else {
        assert(messages.last() == messages[k]);
        assert forall|j: int|
            0 <= j < rest.len() && message_of_contact(
                #[trigger] rest[j],
                contact_id,
            ) implies rest[j].avatar is None by {
            assert(rest[j] == messages[j]);
        }
        lemma_no_avatar(rest, contact_id);
    }
}

proof fn lemma_no_avatar(messages: Seq<MessageView>, contact_id: Seq<char>)
    requires
        forall|j: int|
            0 <= j < messages.len() && message_of_contact(#[trigger] messages[j], contact_id)
                ==> messages[j].avatar is None,
    ensures
        match observed(messages, contact_id) {
            Some(candidate) => candidate.avatar is None && candidate.context.len() == 0,
            None => true,
        },
    decreases messages.len(),
{
    if messages.len() > 0 {
        let rest = messages.drop_last();
        assert(forall|j: int| 0 <= j < rest.len() ==> rest[j] == messages[j]);
        assert(messages[messages.len() - 1] == messages.last());
        lemma_no_avatar(rest, contact_id);
    }
}

/// A candidate has the fullest of the names of its messages: it is one of them, and none of them is
/// fuller. It has none only where no message has one.
pub proof fn law_observed_name(messages: Seq<MessageView>, contact_id: Seq<char>)
    requires
        has_messages(messages, contact_id),
    ensures
        ({
            let name = observed(messages, contact_id)->0.name;
            &&& exists|k: int|
                0 <= k < messages.len() && message_of_contact(#[trigger] messages[k], contact_id)
                    && (name == messages[k].name || name == cleaned(messages[k].name))
            &&& forall|k: int|
                0 <= k < messages.len() && message_of_contact(#[trigger] messages[k], contact_id)
                    && cleaned(messages[k].name) is Some ==> cleaned(name) is Some
                    && !fuller_telegram_name(name, cleaned(messages[k].name)->0)
        }),
    decreases messages.len(),
{
    let rest = messages.drop_last();
    let last = messages.len() - 1;
    let name = observed(messages, contact_id)->0.name;
    lemma_observed(messages, contact_id);
    lemma_observed(rest, contact_id);
    lemma_has_messages(messages, contact_id);
    assert(forall|j: int| 0 <= j < rest.len() ==> rest[j] == messages[j]);
    if let Some(text) = messages[last].name {
        crate::text::law_trimmed_again(text);
    }
    if has_messages(rest, contact_id) {
        law_observed_name(rest, contact_id);
        let known = observed(rest, contact_id)->0.name;
        let k = choose|k: int|
            0 <= k < rest.len() && message_of_contact(#[trigger] rest[k], contact_id) && (known
                == rest[k].name || known == cleaned(rest[k].name));
        assert(message_of_contact(messages[k], contact_id));
        assert forall|k: int|
            0 <= k < messages.len() && message_of_contact(#[trigger] messages[k], contact_id)
                && cleaned(messages[k].name) is Some implies cleaned(name) is Some
            && !fuller_telegram_name(name, cleaned(messages[k].name)->0) by {
            if k < last {
                assert(message_of_contact(rest[k], contact_id));
                crate::text::law_trimmed_again(messages[k].name->0);
            }
        }
    } else {
        assert(message_of_contact(messages[last], contact_id));
    }
}

/// The candidate of a contact of a window is what its messages show, with the context that they make
/// up. Its score is still zero.
pub proof fn law_window_candidates(
    messages: Seq<MessageView>,
    options: CandidateContextOptions,
    i: int,
)
    requires
        0 <= i < window(messages, options).len(),
    ensures
        ({
            let candidate = window(messages, options)[i].candidate;
            let shown = observed(messages, candidate.id);
            &&& shown is Some
            &&& candidate.name == shown->0.name
            &&& candidate.public_username == shown->0.public_username
            &&& candidate.avatar == shown->0.avatar
            &&& candidate.last_message_at_ms == shown->0.last_message_at_ms
            &&& candidate.score == 0
            &&& candidate.context == telegram_context(
                messages,
                positions(messages),
                candidate.id,
                options,
            )
        }),
{
    let found = window(messages, options);
    lemma_window_ids(messages);
    lemma_window_of_ids(messages, window_ids(messages), options);
    let id = found[i].candidate.id;
    assert(window_candidate(messages, id, options) == Some(found[i]));
    lemma_observed(messages, id);
    lemma_observed_score(messages, id);
}

proof fn lemma_observed_score(messages: Seq<MessageView>, contact_id: Seq<char>)
    ensures
        match observed(messages, contact_id) {
            Some(candidate) => candidate.score == 0,
            None => true,
        },
    decreases messages.len(),
{
    if messages.len() > 0 {
        lemma_observed_score(messages.drop_last(), contact_id);
    }
}

/// A message more of a contact tells its username where none is known. The first one is known from the
/// message itself, or else from the id of the contact. Messages of others tell nothing.
pub proof fn law_observed_in_turn(
    messages: Seq<MessageView>,
    more: MessageView,
    contact_id: Seq<char>,
)
    ensures
        ({
            let before = observed(messages, contact_id);
            let now = observed(messages.push(more), contact_id);
            let counts = more.contact_id == contact_id && !more.is_self_contact;
            &&& !counts ==> now == before
            &&& counts ==> now is Some
            &&& counts && before is Some && before->0.public_username is Some
                ==> now->0.public_username == before->0.public_username
            &&& counts && before is Some && before->0.public_username is None
                ==> now->0.public_username == merged_username(None, more.public_username)
            &&& counts && before is None && more.public_username is Some ==> now->0.public_username
                == more.public_username
            &&& counts && before is None && more.public_username is None ==> now->0.public_username
                == username_in_id(contact_id)
        }),
        observed(Seq::empty(), contact_id) is None,
{
    assert(messages.push(more).drop_last() =~= messages);
}

} // verus!
