//! Replies to Telegram messages, and the messages that are shown with a contact.

use crate::json::{
    copy_json, member, members_view, number_or_null, number_view, text_or_null, Json, JsonMember,
    JsonView,
};
use crate::messages::{
    destination_label, sender_label, telegram_destination_label, telegram_sender_label, MessageView,
    TelegramDiagMessage,
};
use crate::models::{
    context_limit, CandidateContextOptions, ContactContext, ContextView,
    TELEGRAM_INTERACTION_CONTEXT_LIMIT, TELEGRAM_RECENT_CONTEXT_LIMIT,
};
use crate::order::views;
use crate::text::{
    as_text, contains, decimal, holds_text, joined, lowered, opt_text, same_text, signed_text,
    to_lower, unsigned_text,
};
use std::collections::HashMap;
use vstd::prelude::*;
use vstd::string::*;

verus! {

broadcast use vstd::std_specs::hash::group_hash_axioms;

/// Within how many messages a reply in a group is looked for.
pub const REPLY_WINDOW: usize = 25;

/// The first index from `from` on, before `to`, of a message with a property; `to` where there is
/// none.
pub open spec fn first_index(
    messages: Seq<MessageView>,
    from: int,
    to: int,
    wanted: spec_fn(MessageView) -> bool,
) -> int
    decreases to - from,
{
    if from >= to || wanted(messages[from]) {
        if from >= to {
            to
        } else {
            from
        }
    } else {
        first_index(messages, from + 1, to, wanted)
    }
}

/// The message stands in a chat.
pub open spec fn in_chat(chat_id: i64) -> spec_fn(MessageView) -> bool {
    |m: MessageView| m.chat_id == chat_id
}

/// The message was sent to a chat by the local account, in reply to a message.
pub open spec fn answers(chat_id: i64, message_id: i64) -> spec_fn(MessageView) -> bool {
    |m: MessageView|
        m.chat_id == chat_id && m.is_outgoing && m.reply_to_message_id == Some(message_id)
}

/// The message was sent to a chat by the local account and holds a text, whatever its case.
pub open spec fn mentions(chat_id: i64, mention: Seq<char>) -> spec_fn(MessageView) -> bool {
    |m: MessageView| m.chat_id == chat_id && m.is_outgoing && holds_text(lowered(m.text), mention)
}

/// Where the messages behind an index end that a reply in a group is looked for in.
pub open spec fn reply_end(messages: Seq<MessageView>, index: int) -> int {
    if index + 1 + REPLY_WINDOW < messages.len() {
        index + 1 + REPLY_WINDOW
    } else {
        messages.len() as int
    }
}

/// The reply of the local account to a message. In a chat with one person it is the next message
/// of the chat, where the local account sent that. Elsewhere it is a message soon after that
/// replies to the message by its number, or else one that mentions its sender.
pub open spec fn reply_for(
    messages: Seq<MessageView>,
    by_id: Map<i64, usize>,
    index: int,
    message: MessageView,
) -> Option<int> {
    if message.chat_kind == "user"@ {
        let next = first_index(
            messages,
            index + 1,
            messages.len() as int,
            in_chat(message.chat_id),
        );
        if next < messages.len() && messages[next].is_outgoing {
            Some(next)
        } else {
            None
        }
    } else {
        let end = reply_end(messages, index);
        let answer = match message.message_id {
            Some(id) => first_index(messages, index + 1, end, answers(message.chat_id, id)),
            None => end,
        };
        if answer < end {
            match messages[answer].message_id {
                Some(id) => if by_id.contains_key(id) {
                    Some(by_id[id] as int)
                } else {
                    None
                },
                None => None,
            }
        } else {
            match message.sender_username {
                Some(username) => {
                    let mention = first_index(
                        messages,
                        index + 1,
                        end,
                        mentions(message.chat_id, "@"@ + lowered(username)),
                    );
                    if mention < end {
                        Some(mention)
                    } else {
                        None
                    }
                },
                None => None,
            }
        }
    }
}

/// Where each message number stands; the last place counts.
pub open spec fn positions(messages: Seq<MessageView>) -> Map<i64, usize>
    decreases messages.len(),
{
    if messages.len() == 0 {
        Map::empty()
    } else {
        let before = positions(messages.drop_last());
        match messages.last().message_id {
            Some(id) => before.insert(id, (messages.len() - 1) as usize),
            None => before,
        }
    }
}

proof fn lemma_first_index(
    messages: Seq<MessageView>,
    from: int,
    to: int,
    k: int,
    wanted: spec_fn(MessageView) -> bool,
)
    requires
        from <= k <= to,
        forall|i: int| from <= i < k ==> !wanted(#[trigger] messages[i]),
        k < to ==> wanted(messages[k]),
    ensures
        first_index(messages, from, to, wanted) == k,
    decreases k - from,
{
    if from < k {
        assert(!wanted(messages[from]));
        lemma_first_index(messages, from + 1, to, k, wanted);
    }
}

/// The first index is the first one.
pub proof fn lemma_first_index_meaning(
    messages: Seq<MessageView>,
    from: int,
    to: int,
    wanted: spec_fn(MessageView) -> bool,
)
    requires
        from <= to,
    ensures
        from <= first_index(messages, from, to, wanted) <= to,
        first_index(messages, from, to, wanted) < to ==> wanted(
            messages[first_index(messages, from, to, wanted)],
        ),
        forall|i: int|
            from <= i < first_index(messages, from, to, wanted) ==> !wanted(#[trigger] messages[i]),
    decreases to - from,
{
    if from < to && !wanted(messages[from]) {
        lemma_first_index_meaning(messages, from + 1, to, wanted);
    }
}

/// Finds where each message number stands.
pub fn message_positions(messages: &[TelegramDiagMessage]) -> (r: HashMap<i64, usize>)
    ensures
        r@ == positions(views(messages@)),
        places_exist(r@, messages@.len()),
{
    let ghost all = views(messages@);
    let count = messages.len();
    let mut by_id: HashMap<i64, usize> = HashMap::new();
    assert(all.take(0) =~= Seq::empty());
    for i in 0..count
        invariant
            count == messages@.len(),
            all == views(messages@),
            by_id@ == positions(all.take(i as int)),
    {
        assert(all.take(i + 1).drop_last() =~= all.take(i as int));
        assert(all.take(i + 1).last() == messages@[i as int]@);
        if let Some(id) = messages[i].message_id {
            by_id.insert(id, i);
        }
    }
    proof {
        assert(all.take(all.len() as int) =~= all);
        lemma_positions_exist(all);
    }
    by_id
}

/// Finds the reply of the local account to a message.
pub fn reply_index(
    messages: &[TelegramDiagMessage],
    by_id: &HashMap<i64, usize>,
    index: usize,
    message: &TelegramDiagMessage,
) -> (r: Option<usize>)
    requires
        index < usize::MAX,
    ensures
        match r {
            Some(i) => reply_for(views(messages@), by_id@, index as int, message@) == Some(i as int),
            None => reply_for(views(messages@), by_id@, index as int, message@) is None,
        },
{
    let ghost all = views(messages@);
    let n = messages.len();
    let start = index + 1;
    if start >= n {
        return None;
    }
    if same_text(message.chat_kind.as_str(), "user") {
        let mut i = start;
        while i < n && messages[i].chat_id != message.chat_id
            invariant
                n == messages@.len(),
                all == views(messages@),
                start <= i <= n,
                forall|j: int| start <= j < i ==> (#[trigger] all[j]).chat_id != message.chat_id,
            decreases n - i,
        {
            assert(all[i as int] == messages@[i as int]@);
            i = i + 1;
        }
        proof {
            if i < n {
                assert(all[i as int] == messages@[i as int]@);
            }
            lemma_first_index(all, start as int, n as int, i as int, in_chat(message.chat_id));
        }
        if i < n && messages[i].is_outgoing {
            return Some(i);
        }
        return None;
    }
    let end = if n - start > REPLY_WINDOW {
        start + REPLY_WINDOW
    } else {
        n
    };
    assert(end == reply_end(all, index as int));
    if let Some(id) = message.message_id {
        let mut i = start;
        while i < end && !(messages[i].chat_id == message.chat_id && messages[i].is_outgoing
            && messages[i].reply_to_message_id == Some(id))
            invariant
                n == messages@.len(),
                end <= n,
                all == views(messages@),
                start <= i <= end,
                forall|j: int|
                    start <= j < i ==> !answers(message.chat_id, id)(#[trigger] all[j]),
            decreases end - i,
        {
            assert(all[i as int] == messages@[i as int]@);
            i = i + 1;
        }
        proof {
            if i < end {
                assert(all[i as int] == messages@[i as int]@);
            }
            lemma_first_index(
                all,
                start as int,
                end as int,
                i as int,
                answers(message.chat_id, id),
            );
        }
        if i < end {
            return match messages[i].message_id {
                Some(answer_id) => match by_id.get(&answer_id) {
                    Some(place) => Some(*place),
                    None => None,
                },
                None => None,
            };
        }
    }
    let username = match &message.sender_username {
        Some(username) => username.as_str(),
        None => return None,
    };
    let mention = joined("@", to_lower(username).as_str());
    let mut i = start;
    while i < end && !(messages[i].chat_id == message.chat_id && messages[i].is_outgoing
        && contains(to_lower(messages[i].text.as_str()).as_str(), mention.as_str()))
        invariant
            n == messages@.len(),
            end <= n,
            all == views(messages@),
            start <= i <= end,
            forall|j: int|
                start <= j < i ==> !mentions(message.chat_id, mention@)(#[trigger] all[j]),
        decreases end - i,
    {
        assert(all[i as int] == messages@[i as int]@);
        i = i + 1;
    }
    proof {
        if i < end {
            assert(all[i as int] == messages@[i as int]@);
        }
        lemma_first_index(
            all,
            start as int,
            end as int,
            i as int,
            mentions(message.chat_id, mention@),
        );
    }
    if i < end {
        Some(i)
    } else {
        None
    }
}

/// Which part of the context of a contact an item stands in.
#[derive(Debug, Clone, Copy, PartialEq, Eq, Structural)]
pub enum TelegramContextSection {
    /// One of the last messages.
    Recent,
    /// A message that was replied to.
    InteractionContact,
    /// The reply to it.
    InteractionReply,
}

pub open spec fn section_kind(section: TelegramContextSection) -> Seq<char> {
    match section {
        TelegramContextSection::Recent => "telegram_recent_message"@,
        TelegramContextSection::InteractionContact => "telegram_interaction_contact_message"@,
        TelegramContextSection::InteractionReply => "telegram_interaction_user_reply"@,
    }
}

pub open spec fn section_label(section: TelegramContextSection) -> Seq<char> {
    match section {
        TelegramContextSection::Recent => "recent"@,
        TelegramContextSection::InteractionContact => "interacted/contact"@,
        TelegramContextSection::InteractionReply => "interacted/user_reply"@,
    }
}

pub open spec fn section_payload_label(section: TelegramContextSection) -> Seq<char> {
    match section {
        TelegramContextSection::Recent => "recent"@,
        _ => "interacted"@,
    }
}

impl TelegramContextSection {
    pub fn kind(self) -> (r: &'static str)
        ensures
            r@ == section_kind(self),
    {
        match self {
            TelegramContextSection::Recent => "telegram_recent_message",
            TelegramContextSection::InteractionContact => "telegram_interaction_contact_message",
            TelegramContextSection::InteractionReply => "telegram_interaction_user_reply",
        }
    }

    pub fn label(self) -> (r: &'static str)
        ensures
            r@ == section_label(self),
    {
        match self {
            TelegramContextSection::Recent => "recent",
            TelegramContextSection::InteractionContact => "interacted/contact",
            TelegramContextSection::InteractionReply => "interacted/user_reply",
        }
    }

    pub fn payload_label(self) -> (r: &'static str)
        ensures
            r@ == section_payload_label(self),
    {
        match self {
            TelegramContextSection::Recent => "recent",
            _ => "interacted",
        }
    }
}

/// The text of a context item: where it stands, where the message was sent to, who sent it, and
/// the message.
pub open spec fn item_text(
    message: MessageView,
    section: TelegramContextSection,
    index: int,
    total: int,
) -> Seq<char> {
    "["@ + section_label(section) + " "@ + decimal(index) + "/"@ + decimal(
        if total < 1 {
            1
        } else {
            total
        },
    ) + "][dest: "@ + destination_label(message) + "][from: "@ + sender_label(message) + "] "@
        + message.text
}

/// The payload of a context item.
pub open spec fn item_payload(
    message: MessageView,
    section: TelegramContextSection,
    index: int,
    total: int,
    pair_id: Option<Seq<char>>,
    include_raw_payload: bool,
) -> JsonView {
    let members = seq![
        ("context_section"@, JsonView::Text(section_payload_label(section))),
        ("context_role"@, JsonView::Text(section_label(section))),
        ("context_index"@, number_view(index)),
        ("context_total"@, number_view(total)),
        (
            "direction"@,
            JsonView::Text(
                if message.is_outgoing {
                    "outgoing"@
                } else {
                    "incoming"@
                },
            ),
        ),
        (
            "destination"@,
            JsonView::Object(
                seq![
                    ("kind"@, JsonView::Text(message.chat_kind)),
                    ("label"@, JsonView::Text(destination_label(message))),
                    ("username"@, text_or_null(message.destination_username)),
                    ("chat_id"@, number_view(message.chat_id as int)),
                ],
            ),
        ),
        (
            "sender"@,
            JsonView::Object(
                seq![
                    ("label"@, JsonView::Text(sender_label(message))),
                    ("username"@, text_or_null(message.sender_username)),
                    ("is_user"@, JsonView::Bool(message.is_outgoing)),
                ],
            ),
        ),
        ("message_id"@, number_or_null(message.message_id)),
        ("reply_to_message_id"@, number_or_null(message.reply_to_message_id)),
        ("pair_id"@, text_or_null(pair_id)),
    ];
    JsonView::Object(
        if include_raw_payload {
            members.push(("raw"@, message.payload))
        } else {
            members
        },
    )
}

/// A message as a context item. Its entropy score is not known yet.
pub open spec fn context_item(
    message: MessageView,
    section: TelegramContextSection,
    index: int,
    total: int,
    pair_id: Option<Seq<char>>,
    include_raw_payload: bool,
) -> ContextView {
    ContextView {
        kind: section_kind(section),
        text: item_text(message, section, index, total),
        timestamp_ms: Some(message.date_ms),
        payload: item_payload(message, section, index, total, pair_id, include_raw_payload),
        entropy: 0,
    }
}

/// The id that a message and its reply share: by the number of the message, or else by their place.
pub open spec fn pair_id_for(message_id: Option<i64>, fallback: int) -> Seq<char> {
    "telegram-reply-"@ + decimal(
        match message_id {
            Some(id) => id as int,
            None => fallback,
        },
    )
}

/// The message counts as one with a contact.
pub open spec fn message_of_contact(message: MessageView, contact_id: Seq<char>) -> bool {
    message.contact_id == contact_id && !message.is_self_contact
}

/// The indices of the messages with a contact.
pub open spec fn contact_messages(messages: Seq<MessageView>, contact_id: Seq<char>) -> Seq<int>
    decreases messages.len(),
{
    if messages.len() == 0 {
        Seq::empty()
    } else {
        let before = contact_messages(messages.drop_last(), contact_id);
        if message_of_contact(messages.last(), contact_id) {
            before.push(messages.len() - 1)
        } else {
            before
        }
    }
}

/// The messages of a contact among the first `count` that were replied to, each with its reply.
pub open spec fn answered_messages(
    messages: Seq<MessageView>,
    by_id: Map<i64, usize>,
    contact_id: Seq<char>,
    count: int,
) -> Seq<(int, int)>
    decreases count,
{
    if count <= 0 {
        Seq::empty()
    } else {
        let before = answered_messages(messages, by_id, contact_id, count - 1);
        let message = messages[count - 1];
        match reply_for(messages, by_id, count - 1, message) {
            Some(reply) => if message_of_contact(message, contact_id) && !message.is_outgoing {
                before.push((count - 1, reply))
            } else {
                before
            },
            None => before,
        }
    }
}

/// The last `count` items of a list, or all of them where there are fewer.
pub open spec fn last_of<A>(s: Seq<A>, count: int) -> Seq<A> {
    if s.len() > count {
        s.skip(s.len() - count)
    } else {
        s
    }
}

pub open spec fn smaller(a: int, b: int) -> int {
    if a < b {
        a
    } else {
        b
    }
}

/// The last messages with a contact as context items.
pub open spec fn recent_items(
    messages: Seq<MessageView>,
    contact_id: Seq<char>,
    limit: int,
    include_payload: bool,
) -> Seq<ContextView> {
    let recent = last_of(
        contact_messages(messages, contact_id),
        smaller(TELEGRAM_RECENT_CONTEXT_LIMIT as int, limit),
    );
    Seq::new(
        recent.len(),
        |i: int|
            context_item(
                messages[recent[i]],
                TelegramContextSection::Recent,
                i + 1,
                recent.len() as int,
                None,
                include_payload,
            ),
    )
}

/// Messages and their replies as context items, two for each pair.
pub open spec fn pair_items(
    messages: Seq<MessageView>,
    pairs: Seq<(int, int)>,
    include_payload: bool,
) -> Seq<ContextView> {
    Seq::new(
        pairs.len() * 2,
        |i: int|
            {
                let pair = pairs[i / 2];
                let number = i / 2 + 1;
                let pair_id = pair_id_for(messages[pair.0].message_id, number);
                if i % 2 == 0 {
                    context_item(
                        messages[pair.0],
                        TelegramContextSection::InteractionContact,
                        number,
                        pairs.len() as int,
                        Some(pair_id),
                        include_payload,
                    )
                } else {
                    context_item(
                        messages[pair.1],
                        TelegramContextSection::InteractionReply,
                        number,
                        pairs.len() as int,
                        Some(pair_id),
                        include_payload,
                    )
                }
            },
    )
}

/// How many pairs still fit behind the recent messages.
pub open spec fn pair_limit(limit: int, recent: int) -> int {
    smaller(TELEGRAM_INTERACTION_CONTEXT_LIMIT as int, (limit - recent) / 2)
}

/// The context of a Telegram contact: the last messages, then the last messages that were replied
/// to with their replies, as far as the limit allows.
pub open spec fn telegram_context(
    messages: Seq<MessageView>,
    by_id: Map<i64, usize>,
    contact_id: Seq<char>,
    options: CandidateContextOptions,
) -> Seq<ContextView> {
    let limit = context_limit(options, contact_id) as int;
    let recent = recent_items(messages, contact_id, limit, options.include_payload);
    recent + pair_items(
        messages,
        last_of(
            answered_messages(messages, by_id, contact_id, messages.len() as int),
            pair_limit(limit, recent.len() as int),
        ),
        options.include_payload,
    )
}

/// Every place stands among the messages.
pub open spec fn places_exist(by_id: Map<i64, usize>, count: nat) -> bool {
    forall|id: i64| #[trigger] by_id.contains_key(id) ==> by_id[id] < count
}

/// The places of message numbers are among the messages.
pub proof fn lemma_positions_exist(messages: Seq<MessageView>)
    requires
        messages.len() <= usize::MAX,
    ensures
        places_exist(positions(messages), messages.len()),
    decreases messages.len(),
{
    if messages.len() > 0 {
        lemma_positions_exist(messages.drop_last());
    }
}

/// A reply stands among the messages.
pub proof fn lemma_reply_exists(
    messages: Seq<MessageView>,
    by_id: Map<i64, usize>,
    index: int,
    message: MessageView,
)
    requires
        0 <= index,
        places_exist(by_id, messages.len()),
    ensures
        match reply_for(messages, by_id, index, message) {
            Some(reply) => 0 <= reply < messages.len(),
            None => true,
        },
{
    let n = messages.len() as int;
    let end = reply_end(messages, index);
    if index + 1 <= n {
        lemma_first_index_meaning(messages, index + 1, n, in_chat(message.chat_id));
        if let Some(username) = message.sender_username {
            lemma_first_index_meaning(
                messages,
                index + 1,
                end,
                mentions(message.chat_id, "@"@ + lowered(username)),
            );
        }
    }
}

/// The payload of a context item.
pub fn telegram_context_payload(
    message: &TelegramDiagMessage,
    section: TelegramContextSection,
    index: usize,
    total: usize,
    pair_id: Option<String>,
    include_raw_payload: bool,
) -> (r: Json)
    ensures
        r@ == item_payload(
            message@,
            section,
            index as int,
            total as int,
            opt_text(pair_id),
            include_raw_payload,
        ),
{
    let direction = if message.is_outgoing {
        "outgoing"
    } else {
        "incoming"
    };
    let mut destination: Vec<JsonMember> = Vec::new();
    destination.push(member("kind", Json::of_text(Some(message.chat_kind.as_str()))));
    destination.push(
        member("label", Json::of_text(Some(telegram_destination_label(message).as_str()))),
    );
    destination.push(member("username", Json::of_text(as_text(&message.destination_username))));
    destination.push(member("chat_id", Json::of_i64(message.chat_id)));
    let ghost destination_view = seq![
        ("kind"@, JsonView::Text(message@.chat_kind)),
        ("label"@, JsonView::Text(destination_label(message@))),
        ("username"@, text_or_null(message@.destination_username)),
        ("chat_id"@, number_view(message@.chat_id as int)),
    ];
    assert(members_view(destination@) =~= destination_view);
    let mut sender: Vec<JsonMember> = Vec::new();
    sender.push(member("label", Json::of_text(Some(telegram_sender_label(message).as_str()))));
    sender.push(member("username", Json::of_text(as_text(&message.sender_username))));
    sender.push(member("is_user", Json::Bool(message.is_outgoing)));
    let ghost sender_view = seq![
        ("label"@, JsonView::Text(sender_label(message@))),
        ("username"@, text_or_null(message@.sender_username)),
        ("is_user"@, JsonView::Bool(message@.is_outgoing)),
    ];
    assert(members_view(sender@) =~= sender_view);
    let mut members: Vec<JsonMember> = Vec::new();
    members.push(member("context_section", Json::of_text(Some(section.payload_label()))));
    members.push(member("context_role", Json::of_text(Some(section.label()))));
    members.push(member("context_index", Json::of_usize(index)));
    members.push(member("context_total", Json::of_usize(total)));
    members.push(member("direction", Json::of_text(Some(direction))));
    members.push(member("destination", Json::of_members(destination)));
    members.push(member("sender", Json::of_members(sender)));
    members.push(member("message_id", Json::of_number(message.message_id)));
    members.push(member("reply_to_message_id", Json::of_number(message.reply_to_message_id)));
    members.push(member("pair_id", Json::of_text(as_text(&pair_id))));
    if include_raw_payload {
        members.push(member("raw", copy_json(&message.payload)));
    }
    let ghost wanted = item_payload(
        message@,
        section,
        index as int,
        total as int,
        opt_text(pair_id),
        include_raw_payload,
    );
    assert(members_view(members@) =~= wanted->Object_0);
    Json::of_members(members)
}

/// A message as a context item.
pub fn telegram_context_item(
    message: &TelegramDiagMessage,
    section: TelegramContextSection,
    index: usize,
    total: usize,
    pair_id: Option<String>,
    include_raw_payload: bool,
) -> (r: ContactContext)
    ensures
        r@ == context_item(
            message@,
            section,
            index as int,
            total as int,
            opt_text(pair_id),
            include_raw_payload,
        ),
{
    let shown_total = if total < 1 {
        1
    } else {
        total
    };
    let text = joined("[", section.label()).concat(" ").concat(
        unsigned_text(index as u64).as_str(),
    ).concat("/").concat(unsigned_text(shown_total as u64).as_str()).concat("][dest: ").concat(
        telegram_destination_label(message).as_str(),
    ).concat("][from: ").concat(telegram_sender_label(message).as_str()).concat("] ").concat(
        message.text.as_str(),
    );
    ContactContext {
        kind: section.kind().to_owned(),
        text,
        timestamp_ms: Some(message.date_ms),
        payload: telegram_context_payload(
            message,
            section,
            index,
            total,
            pair_id,
            include_raw_payload,
        ),
        entropy: 0,
    }
}

/// Whether a message counts as one with a contact.
pub fn telegram_message_matches_contact(message: &TelegramDiagMessage, contact_id: &str) -> (r: bool)
    ensures
        r == message_of_contact(message@, contact_id@),
{
    same_text(message.contact_id.as_str(), contact_id) && !message.is_self_contact
}

/// The id that a message and its reply share.
pub fn telegram_context_pair_id(message_id: Option<i64>, fallback: usize) -> (r: String)
    ensures
        r@ == pair_id_for(message_id, fallback as int),
{
    match message_id {
        Some(id) => joined("telegram-reply-", signed_text(id).as_str()),
        None => joined("telegram-reply-", unsigned_text(fallback as u64).as_str()),
    }
}

/// The indices of the messages with a contact.
fn indices_with_contact(messages: &[TelegramDiagMessage], contact_id: &str) -> (r: Vec<usize>)
    ensures
        r@.map_values(|i: usize| i as int) == contact_messages(views(messages@), contact_id@),
        forall|k: int| 0 <= k < r@.len() ==> #[trigger] r@[k] < messages@.len(),
{
    let ghost all = views(messages@);
    let mut out: Vec<usize> = Vec::new();
    assert(out@.map_values(|i: usize| i as int) =~= contact_messages(all.take(0), contact_id@));
    for i in 0..messages.len()
        invariant
            all == views(messages@),
            out@.map_values(|i: usize| i as int) == contact_messages(
                all.take(i as int),
                contact_id@,
            ),
            forall|k: int| 0 <= k < out@.len() ==> #[trigger] out@[k] < messages@.len(),
    {
        assert(all.take(i + 1).drop_last() =~= all.take(i as int));
        assert(all.take(i + 1).last() == messages@[i as int]@);
        if telegram_message_matches_contact(&messages[i], contact_id) {
            let ghost before = out@.map_values(|i: usize| i as int);
            out.push(i);
            assert(out@.map_values(|i: usize| i as int) =~= before.push(i as int));
        }
    }
    assert(all.take(all.len() as int) =~= all);
    out
}

spec fn pair_views(pairs: Seq<(usize, usize)>) -> Seq<(int, int)> {
    pairs.map_values(|pair: (usize, usize)| (pair.0 as int, pair.1 as int))
}

/// The messages of a contact that were replied to, each with its reply.
fn answered_with_contact(
    messages: &[TelegramDiagMessage],
    by_id: &HashMap<i64, usize>,
    contact_id: &str,
) -> (r: Vec<(usize, usize)>)
    requires
        places_exist(by_id@, messages@.len()),
    ensures
        pair_views(r@) == answered_messages(
            views(messages@),
            by_id@,
            contact_id@,
            messages@.len() as int,
        ),
        forall|k: int|
            0 <= k < r@.len() ==> (#[trigger] r@[k]).0 < messages@.len() && r@[k].1
                < messages@.len(),
{
    let ghost all = views(messages@);
    let mut out: Vec<(usize, usize)> = Vec::new();
    assert(pair_views(out@) =~= answered_messages(all, by_id@, contact_id@, 0));
    for i in 0..messages.len()
        invariant
            all == views(messages@),
            places_exist(by_id@, messages@.len()),
            pair_views(out@) == answered_messages(all, by_id@, contact_id@, i as int),
            forall|k: int|
                0 <= k < out@.len() ==> (#[trigger] out@[k]).0 < messages@.len() && out@[k].1
                    < messages@.len(),
    {
        assert(all[i as int] == messages@[i as int]@);
        proof {
            lemma_reply_exists(all, by_id@, i as int, all[i as int]);
        }
        let message = &messages[i];
        if telegram_message_matches_contact(message, contact_id) && !message.is_outgoing {
            if let Some(reply) = reply_index(messages, by_id, i, message) {
                let ghost before = pair_views(out@);
                out.push((i, reply));
                assert(pair_views(out@) =~= before.push((i as int, reply as int)));
            }
        }
    }
    out
}

/// The context of a Telegram contact.
pub fn telegram_context_for_candidate(
    messages: &[TelegramDiagMessage],
    by_id: &HashMap<i64, usize>,
    contact_id: &str,
    context_options: CandidateContextOptions,
) -> (r: Vec<ContactContext>)
    requires
        places_exist(by_id@, messages@.len()),
    ensures
        views(r@) == telegram_context(views(messages@), by_id@, contact_id@, context_options),
{
    let ghost all = views(messages@);
    let limit = context_options.limit_for_id(contact_id);
    let include_payload = context_options.include_payload;
    let mut context: Vec<ContactContext> = Vec::new();
    let indices = indices_with_contact(messages, contact_id);
    let recent_limit = if TELEGRAM_RECENT_CONTEXT_LIMIT < limit {
        TELEGRAM_RECENT_CONTEXT_LIMIT
    } else {
        limit
    };
    let skipped = if indices.len() > recent_limit {
        indices.len() - recent_limit
    } else {
        0
    };
    let count = indices.len();
    let total = count - skipped;
    let ghost places = contact_messages(all, contact_id@);
    let ghost recent = recent_items(all, contact_id@, limit as int, include_payload);
    proof {
        let chosen = last_of(places, recent_limit as int);
        assert(places.len() == indices@.len());
        assert(chosen.len() == total);
        assert(views(context@) =~= recent.take(0));
    }
    for i in 0..total
        invariant
            all == views(messages@),
            skipped + total == count,
            count == indices@.len(),
            places == contact_messages(all, contact_id@),
            indices@.map_values(|i: usize| i as int) == places,
            forall|k: int| 0 <= k < indices@.len() ==> #[trigger] indices@[k] < messages@.len(),
            recent_limit == smaller(TELEGRAM_RECENT_CONTEXT_LIMIT as int, limit as int),
            skipped == (if places.len() > recent_limit {
                places.len() - recent_limit
            } else {
                0
            }),
            recent == recent_items(all, contact_id@, limit as int, include_payload),
            recent.len() == total,
            views(context@) == recent.take(i as int),
    {
        let place = indices[skipped + i];
        proof {
            let chosen = last_of(places, recent_limit as int);
            assert(chosen[i as int] == places[skipped + i]);
            assert(places[skipped + i] == place as int);
            assert(all[place as int] == messages@[place as int]@);
        }
        let ghost before = views(context@);
        let item = telegram_context_item(
            &messages[place],
            TelegramContextSection::Recent,
            i + 1,
            total,
            None,
            include_payload,
        );
        let ghost shown = item@;
        context.push(item);
        assert(views(context@) =~= before.push(shown));
        assert(shown == recent[i as int]);
        assert(recent.take(i + 1) =~= recent.take(i as int).push(recent[i as int]));
    }
    assert(recent.take(total as int) =~= recent);
    let fitting = (limit - total) / 2;
    let pair_count = if TELEGRAM_INTERACTION_CONTEXT_LIMIT < fitting {
        TELEGRAM_INTERACTION_CONTEXT_LIMIT
    } else {
        fitting
    };
    let pairs = answered_with_contact(messages, by_id, contact_id);
    let passed = if pairs.len() > pair_count {
        pairs.len() - pair_count
    } else {
        0
    };
    let answered_count = pairs.len();
    let pair_total = answered_count - passed;
    let ghost answered = answered_messages(all, by_id@, contact_id@, messages@.len() as int);
    let ghost chosen = last_of(answered, pair_count as int);
    let ghost items = pair_items(all, chosen, include_payload);
    proof {
        assert(answered.len() == pairs@.len());
        assert(chosen.len() == pair_total);
        assert(pair_count == pair_limit(limit as int, recent.len() as int));
        assert(views(context@) =~= recent + items.take(0));
    }
    for i in 0..pair_total
        invariant
            all == views(messages@),
            passed + pair_total == answered_count,
            answered_count == pairs@.len(),
            pair_views(pairs@) == answered,
            forall|k: int|
                0 <= k < pairs@.len() ==> (#[trigger] pairs@[k]).0 < messages@.len() && pairs@[k].1
                    < messages@.len(),
            chosen == last_of(answered, pair_count as int),
            chosen.len() == pair_total,
            passed == (if answered.len() > pair_count {
                answered.len() - pair_count
            } else {
                0
            }),
            items == pair_items(all, chosen, include_payload),
            views(context@) == recent + items.take(2 * i as int),
    {
        let (message_place, reply_place) = pairs[passed + i];
        proof {
            assert(chosen[i as int] == answered[passed + i]);
            assert(answered[passed + i] == (message_place as int, reply_place as int));
            assert(all[message_place as int] == messages@[message_place as int]@);
            assert(all[reply_place as int] == messages@[reply_place as int]@);
            assert((2 * i) / 2 == i && (2 * i) % 2 == 0);
            assert((2 * i + 1) / 2 == i && (2 * i + 1) % 2 == 1);
        }
        let pair_number = i + 1;
        let pair_id = telegram_context_pair_id(messages[message_place].message_id, pair_number);
        let ghost before = views(context@);
        let asked = telegram_context_item(
            &messages[message_place],
            TelegramContextSection::InteractionContact,
            pair_number,
            pair_total,
            Some(pair_id.clone()),
            include_payload,
        );
        let ghost asked_view = asked@;
        context.push(asked);
        let reply = telegram_context_item(
            &messages[reply_place],
            TelegramContextSection::InteractionReply,
            pair_number,
            pair_total,
            Some(pair_id),
            include_payload,
        );
        let ghost reply_view = reply@;
        context.push(reply);
        proof {
            assert(views(context@) =~= before.push(asked_view).push(reply_view));
            assert(items[2 * i as int] == asked_view);
            assert(items[2 * i + 1] == reply_view);
            assert(items.take(2 * (i + 1)) =~= items.take(2 * i as int).push(
                items[2 * i as int],
            ).push(items[2 * i + 1]));
            assert(recent + items.take(2 * (i + 1)) =~= (recent + items.take(2 * i as int)).push(
                asked_view,
            ).push(reply_view));
        }
    }
    assert(items.take(2 * pair_total as int) =~= items);
    context
}

/// A context never holds more items than its limit, nor more than the recent messages and pairs
/// that it is made of.
pub proof fn law_context_size(
    messages: Seq<MessageView>,
    by_id: Map<i64, usize>,
    contact_id: Seq<char>,
    options: CandidateContextOptions,
)
    ensures
        telegram_context(messages, by_id, contact_id, options).len() <= context_limit(
            options,
            contact_id,
        ),
        telegram_context(messages, by_id, contact_id, options).len()
            <= TELEGRAM_RECENT_CONTEXT_LIMIT + 2 * TELEGRAM_INTERACTION_CONTEXT_LIMIT,
{
}

/// Where the limit allows, the context holds the recent messages in full: all of the messages with
/// the contact, or the last ones of them.
pub proof fn law_recent_messages_are_kept(
    messages: Seq<MessageView>,
    by_id: Map<i64, usize>,
    contact_id: Seq<char>,
    options: CandidateContextOptions,
)
    requires
        context_limit(options, contact_id) >= TELEGRAM_RECENT_CONTEXT_LIMIT,
    ensures
        telegram_context(messages, by_id, contact_id, options).len() >= smaller(
            contact_messages(messages, contact_id).len() as int,
            TELEGRAM_RECENT_CONTEXT_LIMIT as int,
        ),
        forall|i: int|
            0 <= i < smaller(
                contact_messages(messages, contact_id).len() as int,
                TELEGRAM_RECENT_CONTEXT_LIMIT as int,
            ) ==> (#[trigger] telegram_context(messages, by_id, contact_id, options)[i]).kind
                == "telegram_recent_message"@,
{
}

/// In a chat with one person, a message has a reply exactly where the next message of the chat was
/// sent by the local account, and that message is the reply.
pub proof fn law_personal_reply(
    messages: Seq<MessageView>,
    by_id: Map<i64, usize>,
    index: int,
    reply: int,
)
    requires
        0 <= index < messages.len(),
        messages[index].chat_kind == "user"@,
    ensures
        reply_for(messages, by_id, index, messages[index]) == Some(reply) <==> (index < reply
            < messages.len() && messages[reply].is_outgoing && messages[reply].chat_id
            == messages[index].chat_id && forall|k: int|
            index < k < reply ==> (#[trigger] messages[k]).chat_id != messages[index].chat_id),
{
    let chat = messages[index].chat_id;
    let n = messages.len() as int;
    lemma_first_index_meaning(messages, index + 1, n, in_chat(chat));
    if index < reply < n && messages[reply].chat_id == chat && forall|k: int|
        index < k < reply ==> (#[trigger] messages[k]).chat_id != chat {
        lemma_first_index(messages, index + 1, n, reply, in_chat(chat));
    }
}

/// A message number stands where the last message with that number is.
pub proof fn law_positions(messages: Seq<MessageView>, id: i64)
    requires
        messages.len() <= usize::MAX,
    ensures
        positions(messages).contains_key(id) <==> exists|k: int|
            0 <= k < messages.len() && (#[trigger] messages[k]).message_id == Some(id),
        positions(messages).contains_key(id) ==> {
            let place = positions(messages)[id] as int;
            &&& place < messages.len()
            &&& messages[place].message_id == Some(id)
            &&& forall|k: int|
                place < k < messages.len() ==> (#[trigger] messages[k]).message_id != Some(id)
        },
    decreases messages.len(),
{
    if messages.len() > 0 {
        let rest = messages.drop_last();
        let last = messages.len() - 1;
        law_positions(rest, id);
        assert(forall|k: int| 0 <= k < rest.len() ==> rest[k] == messages[k]);
        assert(messages[last] == messages.last());
        if positions(rest).contains_key(id) {
            let place = positions(rest)[id] as int;
            assert(messages[place].message_id == Some(id));
        }
        if exists|k: int| 0 <= k < messages.len() && (#[trigger] messages[k]).message_id == Some(id) {
            let k = choose|k: int|
                0 <= k < messages.len() && (#[trigger] messages[k]).message_id == Some(id);
            if k < last {
                assert(rest[k].message_id == Some(id));
            }
        }
    }
}

/// A message soon after another in the same chat, sent by the local account.
pub open spec fn soon_sent(messages: Seq<MessageView>, index: int, k: int) -> bool {
    &&& index < k <= index + 25
    &&& k < messages.len()
    &&& messages[k].chat_id == messages[index].chat_id
    &&& messages[k].is_outgoing
}

/// It replies to the other by its number.
pub open spec fn replies_by_number(messages: Seq<MessageView>, index: int, k: int) -> bool {
    &&& soon_sent(messages, index, k)
    &&& messages[index].message_id is Some
    &&& messages[k].reply_to_message_id == messages[index].message_id
}

/// It names the sender of the other.
pub open spec fn names_sender(messages: Seq<MessageView>, index: int, k: int) -> bool {
    &&& soon_sent(messages, index, k)
    &&& messages[index].sender_username is Some
    &&& holds_text(lowered(messages[k].text), "@"@ + lowered(messages[index].sender_username->0))
}

/// In a group the reply to a message is the first message within the next twenty-five that replies
/// to it by its number, as far as that has a number itself. Where there is none, it is the first of
/// them that names the sender.
pub proof fn law_group_reply(messages: Seq<MessageView>, index: int, k: int)
    requires
        messages.len() <= usize::MAX,
        0 <= index < messages.len(),
        messages[index].chat_kind != "user"@,
    ensures
        ({
            let reply = reply_for(messages, positions(messages), index, messages[index]);
            &&& replies_by_number(messages, index, k) && (forall|j: int|
                j < k ==> !#[trigger] replies_by_number(messages, index, j))
                ==> match messages[k].message_id {
                Some(id) => reply is Some && messages[reply->0].message_id == Some(id),
                None => reply is None,
            }
            &&& (forall|j: int| !#[trigger] replies_by_number(messages, index, j)) ==> (reply
                == Some(k) <==> names_sender(messages, index, k) && (forall|j: int|
                j < k ==> !#[trigger] names_sender(messages, index, j)))
            &&& (forall|j: int| !#[trigger] replies_by_number(messages, index, j)) && (forall|
                j: int,
            |
                !#[trigger] names_sender(messages, index, j)) ==> reply is None
        }),
{
    let message = messages[index];
    let chat = message.chat_id;
    let end = reply_end(messages, index);
    if let Some(id) = message.message_id {
        let wanted = answers(chat, id);
        lemma_first_index_meaning(messages, index + 1, end, wanted);
        assert forall|j: int| replies_by_number(messages, index, j) <==> (index + 1 <= j < end
            && wanted(messages[j])) by {}
        let first = first_index(messages, index + 1, end, wanted);
        if first < end {
            assert(replies_by_number(messages, index, first));
        }
        if replies_by_number(messages, index, k) && (forall|j: int|
            j < k ==> !#[trigger] replies_by_number(messages, index, j)) {
            assert(first == k);
            if let Some(own) = messages[k].message_id {
                law_positions(messages, own);
            }
        }
    }
    if let Some(username) = message.sender_username {
        let wanted = mentions(chat, "@"@ + lowered(username));
        lemma_first_index_meaning(messages, index + 1, end, wanted);
        assert forall|j: int| names_sender(messages, index, j) <==> (index + 1 <= j < end
            && wanted(messages[j])) by {}
        let first = first_index(messages, index + 1, end, wanted);
        if first < end {
            assert(names_sender(messages, index, first));
        }
    }
    if forall|j: int| !#[trigger] replies_by_number(messages, index, j) {
        if let Some(id) = message.message_id {
            let first = first_index(messages, index + 1, end, answers(chat, id));
            if first < end {
                assert(replies_by_number(messages, index, first));
            }
        }
    }
}

/// The messages with a contact are all that have its id and are not those of the local account to
/// itself, in their order.
pub proof fn law_contact_messages(messages: Seq<MessageView>, contact_id: Seq<char>)
    ensures
        forall|i: int, j: int|
            0 <= i < j < contact_messages(messages, contact_id).len() ==> contact_messages(
                messages,
                contact_id,
            )[i] < contact_messages(messages, contact_id)[j],
        forall|k: int| #[trigger]
            contact_messages(messages, contact_id).contains(k) <==> 0 <= k < messages.len()
                && messages[k].contact_id == contact_id && !messages[k].is_self_contact,
    decreases messages.len(),
{
    let found = contact_messages(messages, contact_id);
    if messages.len() > 0 {
        let rest = messages.drop_last();
        let before = contact_messages(rest, contact_id);
        law_contact_messages(rest, contact_id);
        assert(forall|k: int| 0 <= k < rest.len() ==> rest[k] == messages[k]);
        assert forall|i: int, j: int| 0 <= i < j < found.len() implies found[i] < found[j] by {
            assert(before.contains(before[i]));
        }
        assert forall|k: int| #[trigger]
            found.contains(k) <==> 0 <= k < messages.len() && messages[k].contact_id == contact_id
                && !messages[k].is_self_contact by {
            if before.contains(k) {
                let j = before.index_of(k);
                assert(found[j] == k);
            }
            if found.contains(k) && !before.contains(k) {
                let j = found.index_of(k);
                if j < before.len() {
                    assert(before[j] == k);
                }
            }
            if k == messages.len() - 1 && message_of_contact(messages.last(), contact_id) {
                assert(found[found.len() - 1] == k);
            }
        }
    }
}

/// The answered messages of a contact are all that it sent and that have a reply, in their order,
/// each with its reply.
pub proof fn law_answered_messages(
    messages: Seq<MessageView>,
    by_id: Map<i64, usize>,
    contact_id: Seq<char>,
    count: int,
)
    requires
        0 <= count <= messages.len(),
    ensures
        ({
            let pairs = answered_messages(messages, by_id, contact_id, count);
            &&& forall|i: int, j: int| 0 <= i < j < pairs.len() ==> pairs[i].0 < pairs[j].0
            &&& forall|k: int, r: int| #[trigger]
                pairs.contains((k, r)) <==> 0 <= k < count && messages[k].contact_id == contact_id
                    && !messages[k].is_self_contact && !messages[k].is_outgoing && reply_for(
                    messages,
                    by_id,
                    k,
                    messages[k],
                ) == Some(r)
        }),
    decreases count,
{
    if count > 0 {
        law_answered_messages(messages, by_id, contact_id, count - 1);
        let before = answered_messages(messages, by_id, contact_id, count - 1);
        let pairs = answered_messages(messages, by_id, contact_id, count);
        assert forall|i: int, j: int| 0 <= i < j < pairs.len() implies pairs[i].0 < pairs[j].0 by {
            assert(before.contains((before[i].0, before[i].1)));
        }
        assert forall|k: int, r: int| #[trigger]
            pairs.contains((k, r)) <==> 0 <= k < count && messages[k].contact_id == contact_id
                && !messages[k].is_self_contact && !messages[k].is_outgoing && reply_for(
                messages,
                by_id,
                k,
                messages[k],
            ) == Some(r) by {
            if before.contains((k, r)) {
                let j = before.index_of((k, r));
                assert(pairs[j] == (k, r));
            }
            if pairs.contains((k, r)) && !before.contains((k, r)) {
                let j = pairs.index_of((k, r));
                if j < before.len() {
                    assert(before[j] == (k, r));
                }
            }
            if k == count - 1 && messages[k].contact_id == contact_id
                && !messages[k].is_self_contact && !messages[k].is_outgoing && reply_for(
                messages,
                by_id,
                k,
                messages[k],
            ) == Some(r) {
                assert(pairs[pairs.len() - 1] == (k, r));
            }
        }
    }
}

/// An item shows a message: it has its time, and its text says where the item stands, where the
/// message was sent to, who sent it and what it says.
pub open spec fn shows_message(
    item: ContextView,
    message: MessageView,
    kind: Seq<char>,
    label: Seq<char>,
    index: int,
    total: int,
) -> bool {
    &&& item.kind == kind
    &&& item.timestamp_ms == Some(message.date_ms)
    &&& item.text == "["@ + label + " "@ + decimal(index) + "/"@ + decimal(total) + "][dest: "@
        + destination_label(message) + "][from: "@ + sender_label(message) + "] "@ + message.text
}

proof fn lemma_item_shows(
    message: MessageView,
    section: TelegramContextSection,
    index: int,
    total: int,
    pair_id: Option<Seq<char>>,
    include_raw_payload: bool,
)
    requires
        total >= 1,
    ensures
        shows_message(
            context_item(message, section, index, total, pair_id, include_raw_payload),
            message,
            match section {
                TelegramContextSection::Recent => "telegram_recent_message"@,
                TelegramContextSection::InteractionContact =>
                    "telegram_interaction_contact_message"@,
                TelegramContextSection::InteractionReply => "telegram_interaction_user_reply"@,
            },
            match section {
                TelegramContextSection::Recent => "recent"@,
                TelegramContextSection::InteractionContact => "interacted/contact"@,
                TelegramContextSection::InteractionReply => "interacted/user_reply"@,
            },
            index,
            total,
        ),
{
}

/// The recent part of a context shows the last messages of a contact, in their order.
pub open spec fn shows_recent(
    context: Seq<ContextView>,
    messages: Seq<MessageView>,
    places: Seq<int>,
    count: int,
) -> bool {
    forall|i: int|
        0 <= i < count ==> shows_message(
            #[trigger] context[i],
            messages[places[places.len() - count + i]],
            "telegram_recent_message"@,
            "recent"@,
            i + 1,
            count,
        )
}

/// Behind the recent part a context shows the last pairs of a message and its reply.
pub open spec fn shows_pairs(
    context: Seq<ContextView>,
    messages: Seq<MessageView>,
    pairs: Seq<(int, int)>,
    from: int,
    count: int,
) -> bool {
    forall|q: int|
        from <= q < from + 2 * count ==> {
            let j = (q - from) / 2;
            let pair = pairs[pairs.len() - count + j];
            if (q - from) % 2 == 0 {
                shows_message(
                    #[trigger] context[q],
                    messages[pair.0],
                    "telegram_interaction_contact_message"@,
                    "interacted/contact"@,
                    j + 1,
                    count,
                )
            } else {
                shows_message(
                    context[q],
                    messages[pair.1],
                    "telegram_interaction_user_reply"@,
                    "interacted/user_reply"@,
                    j + 1,
                    count,
                )
            }
        }
}

/// The context of a contact is made of its last messages, twenty at most, and then of its last
/// answered messages with their replies, ten pairs at most, as far as its limit goes.
pub proof fn law_telegram_context(
    messages: Seq<MessageView>,
    by_id: Map<i64, usize>,
    contact_id: Seq<char>,
    options: CandidateContextOptions,
)
    ensures
        ({
            let context = telegram_context(messages, by_id, contact_id, options);
            let limit = context_limit(options, contact_id) as int;
            let all = contact_messages(messages, contact_id);
            let pairs = answered_messages(messages, by_id, contact_id, messages.len() as int);
            let n = vstd::math::min(all.len() as int, vstd::math::min(20, limit));
            let p = vstd::math::min(pairs.len() as int, vstd::math::min(10, (limit - n) / 2));
            &&& context.len() == n + 2 * p
            &&& shows_recent(context, messages, all, n)
            &&& shows_pairs(context, messages, pairs, n, p)
        }),
{
    let context = telegram_context(messages, by_id, contact_id, options);
    let limit = context_limit(options, contact_id) as int;
    let all = contact_messages(messages, contact_id);
    let pairs = answered_messages(messages, by_id, contact_id, messages.len() as int);
    let n = vstd::math::min(all.len() as int, vstd::math::min(20, limit));
    let p = vstd::math::min(pairs.len() as int, vstd::math::min(10, (limit - n) / 2));
    let raw = options.include_payload;
    let recent = recent_items(messages, contact_id, limit, raw);
    let last = last_of(all, smaller(TELEGRAM_RECENT_CONTEXT_LIMIT as int, limit));
    let chosen = last_of(pairs, pair_limit(limit, n));
    let items = pair_items(messages, chosen, raw);
    assert(last.len() == n);
    assert(recent.len() == n);
    assert(chosen.len() == p);
    assert(context == recent + items);
    assert forall|i: int| 0 <= i < n implies shows_message(
        #[trigger] context[i],
        messages[all[all.len() - n + i]],
        "telegram_recent_message"@,
        "recent"@,
        i + 1,
        n,
    ) by {
        assert(context[i] == recent[i]);
        assert(last[i] == all[all.len() - n + i]);
        lemma_item_shows(messages[last[i]], TelegramContextSection::Recent, i + 1, n, None, raw);
    }
    assert forall|q: int| n <= q < n + 2 * p implies ({
        let j = (q - n) / 2;
        let pair = pairs[pairs.len() - p + j];
        if (q - n) % 2 == 0 {
            shows_message(
                #[trigger] context[q],
                messages[pair.0],
                "telegram_interaction_contact_message"@,
                "interacted/contact"@,
                j + 1,
                p,
            )
        } else {
            shows_message(
                context[q],
                messages[pair.1],
                "telegram_interaction_user_reply"@,
                "interacted/user_reply"@,
                j + 1,
                p,
            )
        }
    }) by {
        let j = (q - n) / 2;
        let pair = chosen[j];
        assert(pair == pairs[pairs.len() - p + j]);
        let pair_id = pair_id_for(messages[pair.0].message_id, j + 1);
        assert(context[q] == items[q - n]);
        lemma_item_shows(
            messages[pair.0],
            TelegramContextSection::InteractionContact,
            j + 1,
            p,
            Some(pair_id),
            raw,
        );
        lemma_item_shows(
            messages[pair.1],
            TelegramContextSection::InteractionReply,
            j + 1,
            p,
            Some(pair_id),
            raw,
        );
    }
}

/// What the payload of an item tells: where the item stands, which way the message went, where it was
/// sent to, who sent it, its number, the number that it replies to, and the pair that it belongs to.
/// The raw payload of the message is there where it is asked for.
pub proof fn law_item_payload(
    message: MessageView,
    section: TelegramContextSection,
    index: int,
    total: int,
    pair_id: Option<Seq<char>>,
    raw: bool,
)
    ensures
        ({
            let payload = item_payload(message, section, index, total, pair_id, raw);
            let members = payload->Object_0;
            let destination = members[5].1->Object_0;
            let sender = members[6].1->Object_0;
            let part = match section {
                TelegramContextSection::Recent => "recent"@,
                TelegramContextSection::InteractionContact => "interacted"@,
                TelegramContextSection::InteractionReply => "interacted"@,
            };
            let role = match section {
                TelegramContextSection::Recent => "recent"@,
                TelegramContextSection::InteractionContact => "interacted/contact"@,
                TelegramContextSection::InteractionReply => "interacted/user_reply"@,
            };
            &&& payload is Object
            &&& members[0] == ("context_section"@, JsonView::Text(part))
            &&& members[1] == ("context_role"@, JsonView::Text(role))
            &&& members[2] == ("context_index"@, number_view(index))
            &&& members[3] == ("context_total"@, number_view(total))
            &&& message.is_outgoing ==> members[4] == (
                "direction"@,
                JsonView::Text("outgoing"@),
            )
            &&& !message.is_outgoing ==> members[4] == (
                "direction"@,
                JsonView::Text("incoming"@),
            )
            &&& members[5].0 == "destination"@ && members[5].1 is Object && destination.len() == 4
            &&& destination[0] == ("kind"@, JsonView::Text(message.chat_kind))
            &&& destination[1] == ("label"@, JsonView::Text(destination_label(message)))
            &&& destination[2] == ("username"@, text_or_null(message.destination_username))
            &&& destination[3] == ("chat_id"@, number_view(message.chat_id as int))
            &&& members[6].0 == "sender"@ && members[6].1 is Object && sender.len() == 3
            &&& sender[0] == ("label"@, JsonView::Text(sender_label(message)))
            &&& sender[1] == ("username"@, text_or_null(message.sender_username))
            &&& sender[2] == ("is_user"@, JsonView::Bool(message.is_outgoing))
            &&& members[7] == ("message_id"@, number_or_null(message.message_id))
            &&& members[8] == ("reply_to_message_id"@, number_or_null(message.reply_to_message_id))
            &&& members[9] == ("pair_id"@, text_or_null(pair_id))
            &&& raw ==> members.len() == 11 && members[10] == ("raw"@, message.payload)
            &&& !raw ==> members.len() == 10
        }),
{
}

/// A value that is not there is `null` in a payload, and one that is there stands for itself.
pub proof fn law_or_null(text: Seq<char>, number: i64)
    ensures
        text_or_null(None) == JsonView::Null,
        text_or_null(Some(text)) == JsonView::Text(text),
        number_or_null(None) == JsonView::Null,
        number_or_null(Some(number)) == number_view(number as int),
{
}

/// The items of the last messages belong to no pair. A message and its reply share a pair id, which is
/// made of the number of the message, or else of the place of the pair.
pub proof fn law_context_payloads(
    messages: Seq<MessageView>,
    by_id: Map<i64, usize>,
    contact_id: Seq<char>,
    options: CandidateContextOptions,
    i: int,
    j: int,
)
    ensures
        ({
            let context = telegram_context(messages, by_id, contact_id, options);
            let limit = context_limit(options, contact_id) as int;
            let all = contact_messages(messages, contact_id);
            let pairs = answered_messages(messages, by_id, contact_id, messages.len() as int);
            let n = vstd::math::min(all.len() as int, vstd::math::min(20, limit));
            let p = vstd::math::min(pairs.len() as int, vstd::math::min(10, (limit - n) / 2));
            let pair = pairs[pairs.len() - p + j];
            let shared = "telegram-reply-"@ + decimal(
                if messages[pair.0].message_id is Some {
                    messages[pair.0].message_id->0 as int
                } else {
                    j + 1
                },
            );
            &&& 0 <= i < n ==> context[i].payload == item_payload(
                messages[all[all.len() - n + i]],
                TelegramContextSection::Recent,
                i + 1,
                n,
                None,
                options.include_payload,
            ) && context[i].entropy == 0
            &&& 0 <= j < p ==> context[n + 2 * j].payload == item_payload(
                messages[pair.0],
                TelegramContextSection::InteractionContact,
                j + 1,
                p,
                Some(shared),
                options.include_payload,
            ) && context[n + 2 * j + 1].payload == item_payload(
                messages[pair.1],
                TelegramContextSection::InteractionReply,
                j + 1,
                p,
                Some(shared),
                options.include_payload,
            )
        }),
{
    let context = telegram_context(messages, by_id, contact_id, options);
    let limit = context_limit(options, contact_id) as int;
    let all = contact_messages(messages, contact_id);
    let pairs = answered_messages(messages, by_id, contact_id, messages.len() as int);
    let n = vstd::math::min(all.len() as int, vstd::math::min(20, limit));
    let p = vstd::math::min(pairs.len() as int, vstd::math::min(10, (limit - n) / 2));
    let raw = options.include_payload;
    let recent = recent_items(messages, contact_id, limit, raw);
    let last = last_of(all, smaller(TELEGRAM_RECENT_CONTEXT_LIMIT as int, limit));
    let chosen = last_of(pairs, pair_limit(limit, n));
    let items = pair_items(messages, chosen, raw);
    assert(last.len() == n);
    assert(recent.len() == n);
    assert(chosen.len() == p);
    assert(context == recent + items);
    if 0 <= i < n {
        assert(context[i] == recent[i]);
        assert(last[i] == all[all.len() - n + i]);
    }
    if 0 <= j < p {
        assert(chosen[j] == pairs[pairs.len() - p + j]);
        assert((2 * j) / 2 == j && (2 * j) % 2 == 0);
        assert((2 * j + 1) / 2 == j && (2 * j + 1) % 2 == 1);
        assert(context[n + 2 * j] == items[2 * j]);
        assert(context[n + 2 * j + 1] == items[2 * j + 1]);
    }
}

} // verus!
