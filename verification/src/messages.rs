//! Telegram messages, as the diagnostics of an account record them.

use crate::json::{parse_json, parsed_json, Json, JsonView};
use crate::names::{
    bot_username, is_bare, law_usernames_are_bare, name_should_include_handle, public_username,
    sanitize_public_username, shows_handle, telegram_username_looks_like_bot,
};
use crate::order::{
    law_sorting_keeps_items, law_sorting_orders, lemma_sorted_contains, sorted_by, stable_sort,
    views, Order,
};
use crate::peer_metadata::{
    bare_usernames, named_contact_id, named_id, numbered_contact_id, numbered_id, or_empty,
    MetadataView, TelegramPeerMetadata,
};
use crate::text::{
    as_text, clean, clean_opt, cleaned, decimal, first_of, joined, nonblank, opt_str, opt_text, own,
    same_text, signed_text, strip_leading, texts, trim, trimmed, without_leading,
};
use crate::text_map::{lookup, TextMap};
use vstd::prelude::*;
use vstd::string::*;

verus! {

/// One message of a chat.
#[derive(Debug)]
pub struct TelegramDiagMessage {
    /// The normalized contact id of the chat.
    pub contact_id: String,
    /// The best display name that is known.
    pub name: Option<String>,
    /// The public username without a leading `@`.
    pub public_username: Option<String>,
    pub avatar: Option<String>,
    /// The label of the chat.
    pub destination_name: Option<String>,
    pub destination_username: Option<String>,
    pub chat_id: i64,
    /// `user`, `group` or `channel`.
    pub chat_kind: String,
    pub sender_username: Option<String>,
    pub sender_name: Option<String>,
    /// Whether the local account sent the message.
    pub is_outgoing: bool,
    /// Whether the chat is that of the local account with itself.
    pub is_self_contact: bool,
    /// Milliseconds since the Unix epoch.
    pub date_ms: i128,
    pub message_id: Option<i64>,
    pub reply_to_message_id: Option<i64>,
    pub text: String,
    /// The payload that the message was read from, where payloads are kept.
    pub payload: Json,
}

pub ghost struct MessageView {
    pub contact_id: Seq<char>,
    pub name: Option<Seq<char>>,
    pub public_username: Option<Seq<char>>,
    pub avatar: Option<Seq<char>>,
    pub destination_name: Option<Seq<char>>,
    pub destination_username: Option<Seq<char>>,
    pub chat_id: i64,
    pub chat_kind: Seq<char>,
    pub sender_username: Option<Seq<char>>,
    pub sender_name: Option<Seq<char>>,
    pub is_outgoing: bool,
    pub is_self_contact: bool,
    pub date_ms: i128,
    pub message_id: Option<i64>,
    pub reply_to_message_id: Option<i64>,
    pub text: Seq<char>,
    pub payload: JsonView,
}

impl View for TelegramDiagMessage {
    type V = MessageView;

    open spec fn view(&self) -> MessageView {
        MessageView {
            contact_id: self.contact_id@,
            name: opt_text(self.name),
            public_username: opt_text(self.public_username),
            avatar: opt_text(self.avatar),
            destination_name: opt_text(self.destination_name),
            destination_username: opt_text(self.destination_username),
            chat_id: self.chat_id,
            chat_kind: self.chat_kind@,
            sender_username: opt_text(self.sender_username),
            sender_name: opt_text(self.sender_name),
            is_outgoing: self.is_outgoing,
            is_self_contact: self.is_self_contact,
            date_ms: self.date_ms,
            message_id: self.message_id,
            reply_to_message_id: self.reply_to_message_id,
            text: self.text@,
            payload: self.payload@,
        }
    }
}

/// The text under a key, trimmed, where it is not blank.
pub open spec fn payload_text(payload: JsonView, key: Seq<char>) -> Option<Seq<char>> {
    cleaned(payload.text_at(key))
}

/// A username with one leading `@`.
pub open spec fn with_at(username: Seq<char>) -> Seq<char> {
    "@"@ + without_leading(username, '@')
}

/// The number of the user in a chat.
pub open spec fn payload_user(payload: JsonView) -> Option<i64> {
    match first_of(payload.signed_at("chat_id"@), payload.signed_at("sender_id"@)) {
        Some(id) if id > 0 => Some(id),
        _ => None,
    }
}

/// The chat is with a bot.
pub open spec fn bot_chat(payload: JsonView) -> bool {
    payload.flag_at("chat_is_bot"@) == Some(true) || match payload.text_at("chat_username"@) {
        Some(username) => bot_username(username),
        None => false,
    }
}

/// The contact id of a chat, by the number of the user before the name. `ids` holds the normalized
/// form of each id that has one. Only chats with people have a contact id.
pub open spec fn contact_id_in(
    payload: JsonView,
    chat_kind: Seq<char>,
    ids: Map<Seq<char>, Seq<char>>,
) -> Option<Seq<char>> {
    if chat_kind != "user"@ || bot_chat(payload) {
        None
    } else {
        first_of(
            match payload_user(payload) {
                Some(user) => lookup(ids, numbered_id(user as int)),
                None => None,
            },
            match payload.text_at("chat_username"@) {
                Some(username) => lookup(ids, named_id(username)),
                None => None,
            },
        )
    }
}

/// The display name in a payload.
pub open spec fn contact_name_in(payload: JsonView, chat_kind: Seq<char>) -> Option<Seq<char>> {
    let value = if chat_kind == "user"@ {
        first_of(payload.member("chat_title"@), payload.member("sender_name"@))
    } else {
        payload.member("sender_name"@)
    };
    match value {
        Some(value) => cleaned(value.text()),
        None => None,
    }
}

/// The username of the contact in a payload.
pub open spec fn contact_username_in(payload: JsonView, chat_kind: Seq<char>) -> Option<Seq<char>> {
    payload_text(
        payload,
        if chat_kind == "user"@ {
            "chat_username"@
        } else {
            "sender_username"@
        },
    )
}

/// What is known of the contact in a payload.
pub open spec fn known_contact(
    payload: JsonView,
    chat_kind: Seq<char>,
    known: Map<Seq<char>, MetadataView>,
    ids: Map<Seq<char>, Seq<char>>,
) -> Option<MetadataView> {
    match contact_id_in(payload, chat_kind, ids) {
        Some(id) => lookup(known, id),
        None => None,
    }
}

/// The name that a contact is shown with: the known name before the one in the payload, with the
/// username where the name alone does not tell enough.
pub open spec fn display_name_in(
    payload: JsonView,
    chat_kind: Seq<char>,
    known: Map<Seq<char>, MetadataView>,
    ids: Map<Seq<char>, Seq<char>>,
) -> Option<Seq<char>> {
    let known_name = match known_contact(payload, chat_kind, known, ids) {
        Some(metadata) => metadata.name,
        None => None,
    };
    match (
        first_of(known_name, contact_name_in(payload, chat_kind)),
        contact_username_in(payload, chat_kind),
    ) {
        (Some(name), Some(username)) => if shows_handle(name, username) {
            Some(name + " (@"@ + username + ")"@)
        } else {
            Some(name)
        },
        (Some(name), None) => Some(name),
        (None, Some(username)) => Some("@"@ + username),
        (None, None) => None,
    }
}

/// The label of the chat in a payload.
pub open spec fn destination_in(
    payload: JsonView,
    chat_kind: Seq<char>,
    contact_name: Option<Seq<char>>,
) -> Option<Seq<char>> {
    let title = first_of(
        payload_text(payload, "chat_title"@),
        match payload_text(payload, "chat_username"@) {
            Some(username) => Some(with_at(username)),
            None => None,
        },
    );
    if chat_kind == "user"@ {
        first_of(cleaned(contact_name), title)
    } else {
        title
    }
}

/// The message stands in the chat of the local account with itself.
pub open spec fn self_contact(
    chat_kind: Seq<char>,
    chat_id: i64,
    sender_id: Option<i64>,
    is_outgoing: bool,
    self_user_id: Option<i64>,
) -> bool {
    if chat_kind == "group"@ {
        is_outgoing || (self_user_id is Some && sender_id == self_user_id)
    } else {
        chat_kind == "user"@ && self_user_id == Some(chat_id)
    }
}

pub open spec fn or_false(flag: Option<bool>) -> bool {
    flag == Some(true)
}

/// The text of a message.
pub open spec fn message_text(payload: JsonView) -> Seq<char> {
    trimmed(
        match first_of(payload.member("text_prefix"@), payload.member("text"@)) {
            Some(value) => or_empty(value.text()),
            None => Seq::empty(),
        },
    )
}

/// The message in a payload, where the payload records the delivery of a message with a text, in a
/// chat with a person, of which the user is notified.
pub open spec fn message_in(
    payload: JsonView,
    include_payload: bool,
    self_user_id: Option<i64>,
    known: Map<Seq<char>, MetadataView>,
    ids: Map<Seq<char>, Seq<char>>,
) -> Option<MessageView> {
    let chat_kind = or_empty(payload.text_at("chat_kind"@));
    let chat_id = match payload.signed_at("chat_id"@) {
        Some(id) => id,
        None => 0,
    };
    let is_outgoing = or_false(payload.flag_at("is_outgoing"@));
    let name = display_name_in(payload, chat_kind, known, ids);
    match contact_id_in(payload, chat_kind, ids) {
        Some(contact_id) => if payload.text_at("stage"@) == Some("emitted"@) && !or_false(
            payload.flag_at("notification_muted"@),
        ) && message_text(payload).len() > 0 && chat_kind == "user"@ {
            Some(
                MessageView {
                    contact_id,
                    name,
                    public_username: first_of(
                        match contact_username_in(payload, chat_kind) {
                            Some(username) => public_username(username),
                            None => None,
                        },
                        match lookup(known, contact_id) {
                            Some(metadata) => metadata.public_username,
                            None => None,
                        },
                    ),
                    avatar: match lookup(known, contact_id) {
                        Some(metadata) => metadata.avatar,
                        None => None,
                    },
                    destination_name: destination_in(payload, chat_kind, name),
                    destination_username: payload_text(payload, "chat_username"@),
                    chat_id,
                    chat_kind,
                    sender_username: payload.text_at("sender_username"@),
                    sender_name: payload_text(payload, "sender_name"@),
                    is_outgoing,
                    is_self_contact: self_contact(
                        chat_kind,
                        chat_id,
                        payload.signed_at("sender_id"@),
                        is_outgoing,
                        self_user_id,
                    ),
                    date_ms: match payload.signed_at("date_ms"@) {
                        Some(date) => date as i128,
                        None => 0,
                    },
                    message_id: payload.signed_at("message_id"@),
                    reply_to_message_id: match payload.member("reply_to"@) {
                        Some(reply_to) => reply_to.signed_at("message_id"@),
                        None => None,
                    },
                    text: message_text(payload),
                    payload: if include_payload {
                        payload
                    } else {
                        JsonView::Null
                    },
                },
            )
        } else {
            None
        },
        None => None,
    }
}

/// The message in one line of the diagnostics.
pub open spec fn message_on_line(
    line: Seq<char>,
    include_payload: bool,
    self_user_id: Option<i64>,
    known: Map<Seq<char>, MetadataView>,
    ids: Map<Seq<char>, Seq<char>>,
) -> Option<MessageView> {
    match nonblank(line) {
        Some(text) => match parsed_json(text) {
            Some(payload) => message_in(payload, include_payload, self_user_id, known, ids),
            None => None,
        },
        None => None,
    }
}

/// The messages in the lines of the diagnostics, in the order of the lines. Lines without a message
/// are passed over.
pub open spec fn messages_on_lines(
    lines: Seq<Seq<char>>,
    include_payload: bool,
    self_user_id: Option<i64>,
    known: Map<Seq<char>, MetadataView>,
    ids: Map<Seq<char>, Seq<char>>,
) -> Seq<MessageView>
    decreases lines.len(),
{
    if lines.len() == 0 {
        Seq::empty()
    } else {
        let before = messages_on_lines(lines.drop_last(), include_payload, self_user_id, known, ids);
        match message_on_line(lines.last(), include_payload, self_user_id, known, ids) {
            Some(message) => before.push(message),
            None => before,
        }
    }
}

pub struct ByDate;

impl Order<TelegramDiagMessage> for ByDate {
    open spec fn precedes(a: MessageView, b: MessageView) -> bool {
        a.date_ms < b.date_ms
    }

    fn is_before(a: &TelegramDiagMessage, b: &TelegramDiagMessage) -> (r: bool) {
        a.date_ms < b.date_ms
    }
}

pub open spec fn date_order() -> spec_fn(MessageView, MessageView) -> bool {
    |a: MessageView, b: MessageView| <ByDate as Order<TelegramDiagMessage>>::precedes(a, b)
}

/// The label of the chat of a message.
pub open spec fn destination_label(message: MessageView) -> Seq<char> {
    match cleaned(message.destination_name) {
        Some(name) => name,
        None => match cleaned(message.destination_username) {
            Some(username) => with_at(username),
            None => "chat "@ + decimal(message.chat_id as int),
        },
    }
}

/// The label of the sender of a message.
pub open spec fn sender_label(message: MessageView) -> Seq<char> {
    if message.is_outgoing {
        "user"@
    } else {
        match cleaned(first_of(message.sender_name, message.name)) {
            Some(name) => name,
            None => match cleaned(message.sender_username) {
                Some(username) => with_at(username),
                None => "contact"@,
            },
        }
    }
}

/// The trimmed text under a key, where it is not blank.
pub fn telegram_payload_string(payload: &Json, key: &str) -> (r: Option<String>)
    ensures
        opt_text(r) == payload_text(payload@, key@),
{
    own(clean_opt(payload.str_at(key)))
}

/// A username with one leading `@`.
pub fn at_username(username: &str) -> (r: String)
    ensures
        r@ == with_at(username@),
{
    joined("@", strip_leading(username, '@'))
}

/// The number of the user in a chat.
pub fn telegram_payload_user_id(payload: &Json) -> (r: Option<i64>)
    ensures
        r == payload_user(payload@),
{
    let id = match payload.i64_at("chat_id") {
        Some(id) => id,
        None => match payload.i64_at("sender_id") {
            Some(id) => id,
            None => return None,
        },
    };
    if id > 0 {
        Some(id)
    } else {
        None
    }
}

/// Whether the username under a key is that of a bot.
pub fn payload_username_looks_like_bot(payload: &Json, key: &str) -> (r: bool)
    ensures
        r == (match payload@.text_at(key@) {
            Some(username) => bot_username(username),
            None => false,
        }),
{
    match payload.str_at(key) {
        Some(username) => telegram_username_looks_like_bot(username),
        None => false,
    }
}

/// The normalized contact id of the chat in a payload.
pub fn telegram_contact_id(payload: &Json, chat_kind: &str, ids: &TextMap<String>) -> (r: Option<
    String,
>)
    ensures
        opt_text(r) == contact_id_in(payload@, chat_kind@, ids@),
{
    if !same_text(chat_kind, "user") || payload.bool_at("chat_is_bot") == Some(true)
        || payload_username_looks_like_bot(payload, "chat_username") {
        return None;
    }
    if let Some(user) = telegram_payload_user_id(payload) {
        if let Some(id) = ids.get(numbered_contact_id(user).as_str()) {
            return Some(id.clone());
        }
    }
    if let Some(username) = payload.str_at("chat_username") {
        if let Some(id) = ids.get(named_contact_id(username).as_str()) {
            return Some(id.clone());
        }
    }
    None
}

/// Lists the ids of a chat, each before it is normalized.
pub fn telegram_raw_contact_ids(payload: &Json) -> (r: Vec<String>)
    ensures
        texts(r@) == raw_ids_in(payload@),
{
    let mut out: Vec<String> = Vec::new();
    if let Some(user) = telegram_payload_user_id(payload) {
        out.push(numbered_contact_id(user));
    }
    if let Some(username) = payload.str_at("chat_username") {
        out.push(named_contact_id(username));
    }
    assert(texts(out@) =~= raw_ids_in(payload@));
    out
}

/// The ids of a chat before they are normalized.
pub open spec fn raw_ids_in(payload: JsonView) -> Seq<Seq<char>> {
    let named = match payload.text_at("chat_username"@) {
        Some(username) => seq![named_id(username)],
        None => Seq::empty(),
    };
    match payload_user(payload) {
        Some(user) => seq![numbered_id(user as int)] + named,
        None => named,
    }
}

/// The contact id of a chat depends on the normalized forms of its own ids alone.
pub proof fn law_ids_of_chat(
    payload: JsonView,
    chat_kind: Seq<char>,
    a: Map<Seq<char>, Seq<char>>,
    b: Map<Seq<char>, Seq<char>>,
)
    requires
        forall|i: int|
            0 <= i < raw_ids_in(payload).len() ==> lookup(a, #[trigger] raw_ids_in(payload)[i])
                == lookup(b, raw_ids_in(payload)[i]),
    ensures
        contact_id_in(payload, chat_kind, a) == contact_id_in(payload, chat_kind, b),
{
    let raw = raw_ids_in(payload);
    if let Some(user) = payload_user(payload) {
        assert(raw[0] == numbered_id(user as int));
    }
    if let Some(username) = payload.text_at("chat_username"@) {
        assert(raw[raw.len() - 1] == named_id(username));
    }
}

/// Groups, channels and bots have no contact id.
pub proof fn law_contacts_are_people(
    payload: JsonView,
    chat_kind: Seq<char>,
    ids: Map<Seq<char>, Seq<char>>,
)
    ensures
        contact_id_in(payload, chat_kind, ids) is Some ==> chat_kind == "user"@ && !bot_chat(
            payload,
        ),
{
}

/// The display name in a payload.
pub fn telegram_contact_name(payload: &Json, chat_kind: &str) -> (r: Option<String>)
    ensures
        opt_text(r) == contact_name_in(payload@, chat_kind@),
{
    let value = if same_text(chat_kind, "user") {
        match payload.get("chat_title") {
            Some(value) => Some(value),
            None => payload.get("sender_name"),
        }
    } else {
        payload.get("sender_name")
    };
    match value {
        Some(value) => own(clean_opt(value.as_str())),
        None => None,
    }
}

/// The username of the contact in a payload.
pub fn telegram_contact_username(payload: &Json, chat_kind: &str) -> (r: Option<String>)
    ensures
        opt_text(r) == contact_username_in(payload@, chat_kind@),
{
    if same_text(chat_kind, "user") {
        telegram_payload_string(payload, "chat_username")
    } else {
        telegram_payload_string(payload, "sender_username")
    }
}

/// The known name of the contact in a payload.
pub fn telegram_cached_contact_name(
    payload: &Json,
    chat_kind: &str,
    peer_metadata: &TextMap<TelegramPeerMetadata>,
    ids: &TextMap<String>,
) -> (r: Option<String>)
    ensures
        opt_text(r) == (match known_contact(payload@, chat_kind@, peer_metadata@, ids@) {
            Some(metadata) => metadata.name,
            None => None,
        }),
{
    match telegram_contact_id(payload, chat_kind, ids) {
        Some(id) => match peer_metadata.get(id.as_str()) {
            Some(metadata) => metadata.name.clone(),
            None => None,
        },
        None => None,
    }
}

/// The known avatar of the contact in a payload.
pub fn telegram_cached_contact_avatar(
    payload: &Json,
    chat_kind: &str,
    peer_metadata: &TextMap<TelegramPeerMetadata>,
    ids: &TextMap<String>,
) -> (r: Option<String>)
    ensures
        opt_text(r) == (match known_contact(payload@, chat_kind@, peer_metadata@, ids@) {
            Some(metadata) => metadata.avatar,
            None => None,
        }),
{
    match telegram_contact_id(payload, chat_kind, ids) {
        Some(id) => match peer_metadata.get(id.as_str()) {
            Some(metadata) => metadata.avatar.clone(),
            None => None,
        },
        None => None,
    }
}

/// The name that a contact is shown with.
pub fn telegram_contact_display_name(
    payload: &Json,
    chat_kind: &str,
    peer_metadata: &TextMap<TelegramPeerMetadata>,
    ids: &TextMap<String>,
) -> (r: Option<String>)
    ensures
        opt_text(r) == display_name_in(payload@, chat_kind@, peer_metadata@, ids@),
{
    let name = match telegram_cached_contact_name(payload, chat_kind, peer_metadata, ids) {
        Some(name) => Some(name),
        None => telegram_contact_name(payload, chat_kind),
    };
    match telegram_contact_username(payload, chat_kind) {
        Some(username) => match name {
            Some(name) => {
                if name_should_include_handle(name.as_str(), username.as_str()) {
                    Some(name.concat(" (@").concat(username.as_str()).concat(")"))
                } else {
                    Some(name)
                }
            },
            None => Some(joined("@", username.as_str())),
        },
        None => name,
    }
}

/// The label of the chat in a payload.
pub fn telegram_destination_name(payload: &Json, chat_kind: &str, contact_name: Option<&str>) -> (r:
    Option<String>)
    ensures
        opt_text(r) == destination_in(payload@, chat_kind@, opt_str(contact_name)),
{
    if same_text(chat_kind, "user") {
        if let Some(name) = clean_opt(contact_name) {
            return Some(name.to_owned());
        }
    }
    match telegram_payload_string(payload, "chat_title") {
        Some(title) => Some(title),
        None => match telegram_payload_string(payload, "chat_username") {
            Some(username) => Some(at_username(username.as_str())),
            None => None,
        },
    }
}

/// Whether a message stands in the chat of the local account with itself.
pub fn telegram_payload_is_self_contact(
    chat_kind: &str,
    chat_id: i64,
    sender_id: Option<i64>,
    is_outgoing: bool,
    self_user_id: Option<i64>,
) -> (r: bool)
    ensures
        r == self_contact(chat_kind@, chat_id, sender_id, is_outgoing, self_user_id),
{
    if same_text(chat_kind, "group") && is_outgoing {
        return true;
    }
    let self_user_id = match self_user_id {
        Some(id) => id,
        None => return false,
    };
    if same_text(chat_kind, "group") {
        return sender_id == Some(self_user_id);
    }
    same_text(chat_kind, "user") && chat_id == self_user_id
}

/// Reads the message in a payload.
pub fn read_telegram_message(
    payload: Json,
    include_payload: bool,
    self_user_id: Option<i64>,
    peer_metadata: &TextMap<TelegramPeerMetadata>,
    ids: &TextMap<String>,
) -> (r: Option<TelegramDiagMessage>)
    ensures
        match r {
            Some(message) => message_in(
                payload@,
                include_payload,
                self_user_id,
                peer_metadata@,
                ids@,
            ) == Some(message@),
            None => message_in(payload@, include_payload, self_user_id, peer_metadata@, ids@) is None,
        },
{
    let emitted = match payload.str_at("stage") {
        Some(stage) => same_text(stage, "emitted"),
        None => false,
    };
    if !emitted {
        return None;
    }
    if payload.bool_at("notification_muted") == Some(true) {
        return None;
    }
    let value = match payload.get("text_prefix") {
        Some(value) => Some(value),
        None => payload.get("text"),
    };
    let text = match value {
        Some(value) => match value.as_str() {
            Some(text) => trim(text).to_owned(),
            None => return None,
        },
        None => return None,
    };
    if text.as_str().is_empty() {
        return None;
    }
    let chat_kind = match payload.str_at("chat_kind") {
        Some(kind) => kind.to_owned(),
        None => {
            proof {
                reveal_strlit("user");
            }
            return None;
        },
    };
    if !same_text(chat_kind.as_str(), "user") {
        return None;
    }
    let contact_id = match telegram_contact_id(&payload, chat_kind.as_str(), ids) {
        Some(id) => id,
        None => return None,
    };
    let chat_id = match payload.i64_at("chat_id") {
        Some(id) => id,
        None => 0,
    };
    let sender_id = payload.i64_at("sender_id");
    let sender_username = own(payload.str_at("sender_username"));
    let sender_name = telegram_payload_string(&payload, "sender_name");
    let is_outgoing = payload.bool_at("is_outgoing") == Some(true);
    let name = telegram_contact_display_name(&payload, chat_kind.as_str(), peer_metadata, ids);
    let chat_username = match telegram_contact_username(&payload, chat_kind.as_str()) {
        Some(username) => sanitize_public_username(username.as_str()),
        None => None,
    };
    let public_username = match chat_username {
        Some(username) => Some(username),
        None => match peer_metadata.get(contact_id.as_str()) {
            Some(metadata) => metadata.public_username.clone(),
            None => None,
        },
    };
    let avatar = telegram_cached_contact_avatar(&payload, chat_kind.as_str(), peer_metadata, ids);
    let destination_name = telegram_destination_name(&payload, chat_kind.as_str(), as_text(&name));
    let destination_username = telegram_payload_string(&payload, "chat_username");
    let is_self_contact = telegram_payload_is_self_contact(
        chat_kind.as_str(),
        chat_id,
        sender_id,
        is_outgoing,
        self_user_id,
    );
    let date_ms = match payload.i64_at("date_ms") {
        Some(date) => date as i128,
        None => 0,
    };
    let message_id = payload.i64_at("message_id");
    let reply_to_message_id = match payload.get("reply_to") {
        Some(reply_to) => reply_to.i64_at("message_id"),
        None => None,
    };
    Some(
        TelegramDiagMessage {
            contact_id,
            name,
            public_username,
            avatar,
            destination_name,
            destination_username,
            chat_id,
            chat_kind,
            sender_username,
            sender_name,
            is_outgoing,
            is_self_contact,
            date_ms,
            message_id,
            reply_to_message_id,
            text,
            payload: if include_payload {
                payload
            } else {
                Json::Null
            },
        },
    )
}

/// Reads the messages in the lines of the diagnostics of an account, sorted by their dates.
pub fn read_telegram_messages(
    lines: &Vec<String>,
    include_payload: bool,
    self_user_id: Option<i64>,
    peer_metadata: &TextMap<TelegramPeerMetadata>,
    ids: &TextMap<String>,
) -> (r: Vec<TelegramDiagMessage>)
    ensures
        views(r@) == sorted_by(
            messages_on_lines(
                texts(lines@),
                include_payload,
                self_user_id,
                peer_metadata@,
                ids@,
            ),
            date_order(),
        ),
{
    let ghost all = texts(lines@);
    let mut messages: Vec<TelegramDiagMessage> = Vec::new();
    assert(views(messages@) =~= messages_on_lines(
        all.take(0),
        include_payload,
        self_user_id,
        peer_metadata@,
        ids@,
    ));
    for i in 0..lines.len()
        invariant
            all == texts(lines@),
            views(messages@) == messages_on_lines(
                all.take(i as int),
                include_payload,
                self_user_id,
                peer_metadata@,
                ids@,
            ),
    {
        assert(all.take(i + 1).drop_last() =~= all.take(i as int));
        assert(all.take(i + 1).last() == lines@[i as int]@);
        if let Some(line) = clean(lines[i].as_str()) {
            if let Some(payload) = parse_json(line) {
                if let Some(message) = read_telegram_message(
                    payload,
                    include_payload,
                    self_user_id,
                    peer_metadata,
                    ids,
                ) {
                    let ghost before = views(messages@);
                    let ghost read = message@;
                    messages.push(message);
                    assert(views(messages@) =~= before.push(read));
                }
            }
        }
    }
    assert(all.take(all.len() as int) =~= all);
    stable_sort::<TelegramDiagMessage, ByDate>(messages)
}

/// The label of the chat of a message.
pub fn telegram_destination_label(message: &TelegramDiagMessage) -> (r: String)
    ensures
        r@ == destination_label(message@),
{
    match clean_opt(as_text(&message.destination_name)) {
        Some(name) => name.to_owned(),
        None => match clean_opt(as_text(&message.destination_username)) {
            Some(username) => at_username(username),
            None => joined("chat ", signed_text(message.chat_id).as_str()),
        },
    }
}

/// The label of the sender of a message.
pub fn telegram_sender_label(message: &TelegramDiagMessage) -> (r: String)
    ensures
        r@ == sender_label(message@),
{
    if message.is_outgoing {
        return "user".to_owned();
    }
    let name = match &message.sender_name {
        Some(name) => Some(name.as_str()),
        None => as_text(&message.name),
    };
    match clean_opt(name) {
        Some(name) => name.to_owned(),
        None => match clean_opt(as_text(&message.sender_username)) {
            Some(username) => at_username(username),
            None => "contact".to_owned(),
        },
    }
}

proof fn lemma_messages_on_lines(
    lines: Seq<Seq<char>>,
    include_payload: bool,
    self_user_id: Option<i64>,
    known: Map<Seq<char>, MetadataView>,
    ids: Map<Seq<char>, Seq<char>>,
)
    ensures
        forall|i: int|
            0 <= i < messages_on_lines(
                lines,
                include_payload,
                self_user_id,
                known,
                ids,
            ).len() ==> readable(
                #[trigger] messages_on_lines(lines, include_payload, self_user_id, known, ids)[i],
            ),
    decreases lines.len(),
{
    if lines.len() > 0 {
        let rest = lines.drop_last();
        lemma_messages_on_lines(rest, include_payload, self_user_id, known, ids);
        let before = messages_on_lines(rest, include_payload, self_user_id, known, ids);
        let found = messages_on_lines(lines, include_payload, self_user_id, known, ids);
        assert forall|i: int| 0 <= i < found.len() implies readable(#[trigger] found[i]) by {
            if i < before.len() {
                assert(found[i] == before[i]);
            }
        }
    }
}

/// The message has a text, stands in a chat with one person, and has a date of 64 bits.
pub open spec fn readable(message: MessageView) -> bool {
    &&& message.text.len() > 0
    &&& message.chat_kind == "user"@
    &&& i64::MIN <= message.date_ms <= i64::MAX
}

/// The messages that are read are sorted by their dates, and each has a text and stands in a chat
/// with one person.
pub proof fn law_messages_read(
    lines: Seq<Seq<char>>,
    include_payload: bool,
    self_user_id: Option<i64>,
    known: Map<Seq<char>, MetadataView>,
    ids: Map<Seq<char>, Seq<char>>,
)
    ensures
        ({
            let read = sorted_by(
                messages_on_lines(lines, include_payload, self_user_id, known, ids),
                date_order(),
            );
            &&& forall|i: int, j: int|
                0 <= i < j < read.len() ==> (#[trigger] read[i]).date_ms <= (
                #[trigger] read[j]).date_ms
            &&& forall|i: int| 0 <= i < read.len() ==> readable(#[trigger] read[i])
        }),
{
    broadcast use vstd::seq_lib::group_to_multiset_ensures;

    let found = messages_on_lines(lines, include_payload, self_user_id, known, ids);
    let read = sorted_by(found, date_order());
    lemma_messages_on_lines(lines, include_payload, self_user_id, known, ids);
    law_sorting_orders(found, date_order(), |message: MessageView| true);
    law_sorting_keeps_items(found, date_order());
    let before = date_order();
    assert forall|i: int, j: int| 0 <= i < j < read.len() implies (#[trigger] read[i]).date_ms <= (
    #[trigger] read[j]).date_ms by {
        assert(!before(read[j], read[i]));
    }
    assert forall|i: int| 0 <= i < read.len() implies readable(#[trigger] read[i]) by {
        assert(read.contains(read[i]));
        assert(found.to_multiset().contains(read[i]));
        assert(found.contains(read[i]));
        let k = found.index_of(read[i]);
        assert(readable(found[k]));
    }
}

proof fn lemma_usernames_on_lines(
    lines: Seq<Seq<char>>,
    include_payload: bool,
    self_user_id: Option<i64>,
    known: Map<Seq<char>, MetadataView>,
    ids: Map<Seq<char>, Seq<char>>,
)
    requires
        bare_usernames(known),
    ensures
        forall|i: int|
            0 <= i < messages_on_lines(
                lines,
                include_payload,
                self_user_id,
                known,
                ids,
            ).len() ==> is_bare(
                (#[trigger] messages_on_lines(
                    lines,
                    include_payload,
                    self_user_id,
                    known,
                    ids,
                )[i]).public_username,
            ),
    decreases lines.len(),
{
    if lines.len() > 0 {
        let rest = lines.drop_last();
        lemma_usernames_on_lines(rest, include_payload, self_user_id, known, ids);
        let before = messages_on_lines(rest, include_payload, self_user_id, known, ids);
        let found = messages_on_lines(lines, include_payload, self_user_id, known, ids);
        assert forall|i: int| 0 <= i < found.len() implies is_bare(
            (#[trigger] found[i]).public_username,
        ) by {
            if i < before.len() {
                assert(found[i] == before[i]);
            } else {
                let payload = parsed_json(nonblank(lines.last())->0)->0;
                let chat_kind = or_empty(payload.text_at("chat_kind"@));
                if let Some(username) = contact_username_in(payload, chat_kind) {
                    law_usernames_are_bare(username, None, None);
                }
            }
        }
    }
}

/// The public username of a message that is read has no leading `@`, where none that is known has
/// one.
pub proof fn law_usernames_read(
    lines: Seq<Seq<char>>,
    include_payload: bool,
    self_user_id: Option<i64>,
    known: Map<Seq<char>, MetadataView>,
    ids: Map<Seq<char>, Seq<char>>,
)
    requires
        bare_usernames(known),
    ensures
        ({
            let read = sorted_by(
                messages_on_lines(lines, include_payload, self_user_id, known, ids),
                date_order(),
            );
            forall|i: int| 0 <= i < read.len() ==> is_bare((#[trigger] read[i]).public_username)
        }),
{
    let found = messages_on_lines(lines, include_payload, self_user_id, known, ids);
    let read = sorted_by(found, date_order());
    lemma_usernames_on_lines(lines, include_payload, self_user_id, known, ids);
    assert forall|i: int| 0 <= i < read.len() implies is_bare(
        (#[trigger] read[i]).public_username,
    ) by {
        lemma_sorted_contains(found, date_order(), read[i]);
        assert(read.contains(read[i]));
        let k = found.index_of(read[i]);
        assert(is_bare(found[k].public_username));
    }
}

/// The ids of the chats in the lines of the diagnostics before they are normalized.
pub open spec fn raw_ids_on_lines(lines: Seq<Seq<char>>) -> Seq<Seq<char>>
    decreases lines.len(),
{
    if lines.len() == 0 {
        Seq::empty()
    } else {
        let before = raw_ids_on_lines(lines.drop_last());
        match nonblank(lines.last()) {
            Some(text) => match parsed_json(text) {
                Some(payload) => before + raw_ids_in(payload),
                None => before,
            },
            None => before,
        }
    }
}

/// Lists the ids of the chats in the lines of the diagnostics, each before it is normalized.
pub fn telegram_raw_contact_ids_on_lines(lines: &Vec<String>) -> (r: Vec<String>)
    ensures
        texts(r@) == raw_ids_on_lines(texts(lines@)),
{
    let ghost all = texts(lines@);
    let mut out: Vec<String> = Vec::new();
    assert(texts(out@) =~= raw_ids_on_lines(all.take(0)));
    for i in 0..lines.len()
        invariant
            all == texts(lines@),
            texts(out@) == raw_ids_on_lines(all.take(i as int)),
    {
        assert(all.take(i + 1).drop_last() =~= all.take(i as int));
        assert(all.take(i + 1).last() == lines@[i as int]@);
        if let Some(line) = clean(lines[i].as_str()) {
            if let Some(payload) = parse_json(line) {
                let ghost before = texts(out@);
                let mut more = telegram_raw_contact_ids(&payload);
                let ghost added = texts(more@);
                out.append(&mut more);
                assert(texts(out@) =~= before + added);
            }
        }
    }
    assert(all.take(all.len() as int) =~= all);
    out
}

/// The messages in the lines of the diagnostics depend on the normalized forms of the ids on these
/// lines alone.
pub proof fn law_ids_of_lines(
    lines: Seq<Seq<char>>,
    include_payload: bool,
    self_user_id: Option<i64>,
    known: Map<Seq<char>, MetadataView>,
    a: Map<Seq<char>, Seq<char>>,
    b: Map<Seq<char>, Seq<char>>,
)
    requires
        forall|i: int|
            0 <= i < raw_ids_on_lines(lines).len() ==> lookup(
                a,
                #[trigger] raw_ids_on_lines(lines)[i],
            ) == lookup(b, raw_ids_on_lines(lines)[i]),
    ensures
        messages_on_lines(lines, include_payload, self_user_id, known, a) == messages_on_lines(
            lines,
            include_payload,
            self_user_id,
            known,
            b,
        ),
    decreases lines.len(),
{
    if lines.len() > 0 {
        let rest = lines.drop_last();
        let raw = raw_ids_on_lines(lines);
        let before = raw_ids_on_lines(rest);
        assert forall|i: int| 0 <= i < before.len() implies lookup(a, #[trigger] before[i])
            == lookup(b, before[i]) by {
            assert(raw[i] == before[i]);
        }
        law_ids_of_lines(rest, include_payload, self_user_id, known, a, b);
        if let Some(text) = nonblank(lines.last()) {
            if let Some(payload) = parsed_json(text) {
                let own_ids = raw_ids_in(payload);
                assert forall|i: int| 0 <= i < own_ids.len() implies lookup(
                    a,
                    #[trigger] own_ids[i],
                ) == lookup(b, own_ids[i]) by {
                    assert(raw[before.len() + i] == own_ids[i]);
                }
                law_ids_of_chat(payload, or_empty(payload.text_at("chat_kind"@)), a, b);
            }
        }
    }
}

/// A payload records a message exactly where it was delivered, is not muted, has a text and stands
/// in a chat with a person who has a contact id. The prefix of its text counts before the text.
pub proof fn law_message_is_recorded(
    payload: JsonView,
    include_payload: bool,
    self_user_id: Option<i64>,
    known: Map<Seq<char>, MetadataView>,
    ids: Map<Seq<char>, Seq<char>>,
)
    ensures
        ({
            let read = message_in(payload, include_payload, self_user_id, known, ids);
            let text = if payload.member("text_prefix"@) is Some {
                payload.text_at("text_prefix"@)
            } else {
                payload.text_at("text"@)
            };
            &&& read is Some <==> payload.text_at("stage"@) == Some("emitted"@)
                && payload.flag_at("notification_muted"@) != Some(true) && cleaned(text) is Some
                && payload.text_at("chat_kind"@) == Some("user"@) && contact_id_in(
                payload,
                "user"@,
                ids,
            ) is Some
            &&& read is Some ==> cleaned(text) == Some(read->0.text) && Some(read->0.contact_id)
                == contact_id_in(payload, "user"@, ids)
        }),
{
    reveal_strlit("user");
}

/// What else a message tells stands in the payload under its own key, or is known of the contact.
pub proof fn law_message_fields(
    payload: JsonView,
    include_payload: bool,
    self_user_id: Option<i64>,
    known: Map<Seq<char>, MetadataView>,
    ids: Map<Seq<char>, Seq<char>>,
)
    requires
        message_in(payload, include_payload, self_user_id, known, ids) is Some,
    ensures
        ({
            let read = message_in(payload, include_payload, self_user_id, known, ids)->0;
            let person = lookup(known, read.contact_id);
            &&& read.chat_kind == "user"@
            &&& match payload.signed_at("chat_id"@) {
                Some(id) => read.chat_id == id,
                None => read.chat_id == 0,
            }
            &&& match payload.signed_at("date_ms"@) {
                Some(date) => read.date_ms == date,
                None => read.date_ms == 0,
            }
            &&& read.message_id == payload.signed_at("message_id"@)
            &&& match payload.member("reply_to"@) {
                Some(other) => read.reply_to_message_id == other.signed_at("message_id"@),
                None => read.reply_to_message_id is None,
            }
            &&& read.is_outgoing <==> payload.flag_at("is_outgoing"@) == Some(true)
            &&& read.is_self_contact <==> self_user_id == Some(read.chat_id)
            &&& read.sender_name == cleaned(payload.text_at("sender_name"@))
            &&& read.sender_username == payload.text_at("sender_username"@)
            &&& read.destination_username == cleaned(payload.text_at("chat_username"@))
            &&& include_payload ==> read.payload == payload
            &&& !include_payload ==> read.payload == JsonView::Null
            &&& person is None ==> read.avatar is None
            &&& person is Some ==> read.avatar == person->0.avatar
        }),
{
    reveal_strlit("user");
    reveal_strlit("group");
    assert("user"@.len() == 4 && "group"@.len() == 5);
}

/// The name that a payload or the cache gives the person of a chat: the cached one, or else the
/// title of the chat, or else the name of the sender where the chat has no title at all.
pub open spec fn is_known_as(
    payload: JsonView,
    cached: Option<Seq<char>>,
    name: Option<Seq<char>>,
) -> bool {
    &&& cached is Some ==> name == cached
    &&& cached is None && payload.member("chat_title"@) is Some ==> name == cleaned(
        payload.text_at("chat_title"@),
    )
    &&& cached is None && payload.member("chat_title"@) is None ==> name == cleaned(
        payload.text_at("sender_name"@),
    )
}

/// A message is named by the person of its chat, with the username behind a name of one word that
/// says something else, and by the username alone where there is no name.
pub proof fn law_message_name(
    payload: JsonView,
    include_payload: bool,
    self_user_id: Option<i64>,
    known: Map<Seq<char>, MetadataView>,
    ids: Map<Seq<char>, Seq<char>>,
    name: Option<Seq<char>>,
)
    requires
        message_in(payload, include_payload, self_user_id, known, ids) is Some,
        is_known_as(
            payload,
            match lookup(
                known,
                message_in(payload, include_payload, self_user_id, known, ids)->0.contact_id,
            ) {
                Some(metadata) => metadata.name,
                None => None,
            },
            name,
        ),
    ensures
        ({
            let read = message_in(payload, include_payload, self_user_id, known, ids)->0;
            match (name, cleaned(payload.text_at("chat_username"@))) {
                (None, None) => read.name is None,
                (Some(name), None) => read.name == Some(name),
                (None, Some(username)) => read.name == Some("@"@ + username),
                (Some(name), Some(username)) => read.name == Some(
                    if shows_handle(name, username) {
                        name + " (@"@ + username + ")"@
                    } else {
                        name
                    },
                ),
            }
        }),
{
    reveal_strlit("user");
}

/// A chat with a person that has a title, and neither a cached name nor a username, is named by its
/// title, whoever sent the message.
pub proof fn law_title_names_contact(
    payload: JsonView,
    include_payload: bool,
    self_user_id: Option<i64>,
    known: Map<Seq<char>, MetadataView>,
    ids: Map<Seq<char>, Seq<char>>,
    title: Seq<char>,
)
    requires
        message_in(payload, include_payload, self_user_id, known, ids) is Some,
        payload.text_at("chat_title"@) == Some(title),
        nonblank(title) is Some,
        cleaned(payload.text_at("chat_username"@)) is None,
        match lookup(
            known,
            message_in(payload, include_payload, self_user_id, known, ids)->0.contact_id,
        ) {
            Some(metadata) => metadata.name is None,
            None => true,
        },
    ensures
        ({
            let read = message_in(payload, include_payload, self_user_id, known, ids)->0;
            read.name == Some(trimmed(title)) && read.destination_name == Some(trimmed(title))
        }),
{
    reveal_strlit("user");
    crate::text::law_trimmed_again(title);
}

/// The chat with a person is labelled by the name of the person, where there is one, and else by its
/// title or its username.
pub proof fn law_message_destination(
    payload: JsonView,
    include_payload: bool,
    self_user_id: Option<i64>,
    known: Map<Seq<char>, MetadataView>,
    ids: Map<Seq<char>, Seq<char>>,
)
    requires
        message_in(payload, include_payload, self_user_id, known, ids) is Some,
    ensures
        ({
            let read = message_in(payload, include_payload, self_user_id, known, ids)->0;
            let title = cleaned(payload.text_at("chat_title"@));
            let username = cleaned(payload.text_at("chat_username"@));
            &&& cleaned(read.name) is Some ==> read.destination_name == cleaned(read.name)
            &&& cleaned(read.name) is None && title is Some ==> read.destination_name == title
            &&& cleaned(read.name) is None && title is None && username is Some
                ==> read.destination_name == Some("@"@ + without_leading(username->0, '@'))
            &&& cleaned(read.name) is None && title is None && username is None
                ==> read.destination_name is None
        }),
{
    reveal_strlit("user");
}

/// A person is known by number where the chat tells one, or else the sender, and that has a
/// normalized form; and else by the username of the chat.
pub proof fn law_contact_id(payload: JsonView, ids: Map<Seq<char>, Seq<char>>)
    requires
        payload.flag_at("chat_is_bot"@) != Some(true),
        match payload.text_at("chat_username"@) {
            Some(username) => !bot_username(username),
            None => true,
        },
    ensures
        ({
            let number = if payload.signed_at("chat_id"@) is Some {
                payload.signed_at("chat_id"@)
            } else {
                payload.signed_at("sender_id"@)
            };
            let by_number = match number {
                Some(n) => if n > 0 {
                    lookup(ids, "telegram-user-id@"@ + decimal(n as int))
                } else {
                    None
                },
                None => None,
            };
            let by_name = match payload.text_at("chat_username"@) {
                Some(username) => lookup(ids, "telegram@"@ + username),
                None => None,
            };
            &&& by_number is Some ==> contact_id_in(payload, "user"@, ids) == by_number
            &&& by_number is None ==> contact_id_in(payload, "user"@, ids) == by_name
        }),
{
}

/// A chat with a bot, by its flag or by its username, has no contact id; nor has any chat that is
/// not with one user.
pub proof fn law_no_contact_id(
    payload: JsonView,
    chat_kind: Seq<char>,
    ids: Map<Seq<char>, Seq<char>>,
)
    ensures
        chat_kind != "user"@ ==> contact_id_in(payload, chat_kind, ids) is None,
        payload.flag_at("chat_is_bot"@) == Some(true) ==> contact_id_in(
            payload,
            chat_kind,
            ids,
        ) is None,
        payload.text_at("chat_username"@) is Some && bot_username(
            payload.text_at("chat_username"@)->0,
        ) ==> contact_id_in(payload, chat_kind, ids) is None,
{
}

/// A message of a group stands for the local account where it was sent by it, one of a user chat
/// where the chat is its own, and no other does.
pub proof fn law_self_contact(
    chat_id: i64,
    sender_id: Option<i64>,
    is_outgoing: bool,
    own_id: i64,
    chat_kind: Seq<char>,
)
    ensures
        self_contact("group"@, chat_id, sender_id, true, None),
        self_contact("group"@, chat_id, sender_id, is_outgoing, Some(own_id)) <==> is_outgoing
            || sender_id == Some(own_id),
        !self_contact("group"@, chat_id, sender_id, false, None),
        self_contact("user"@, chat_id, sender_id, is_outgoing, Some(own_id)) <==> chat_id == own_id,
        !self_contact("user"@, chat_id, sender_id, is_outgoing, None),
        chat_kind != "user"@ && chat_kind != "group"@ ==> !self_contact(
            chat_kind,
            chat_id,
            sender_id,
            is_outgoing,
            Some(own_id),
        ),
{
    reveal_strlit("user");
    reveal_strlit("group");
    assert("user"@.len() == 4 && "group"@.len() == 5);
}

/// The chat of a message is labelled by its name, or else by its username with one `@`, or else by
/// its number.
pub proof fn law_destination_label(message: MessageView)
    ensures
        cleaned(message.destination_name) is Some ==> destination_label(message) == cleaned(
            message.destination_name,
        )->0,
        cleaned(message.destination_name) is None && cleaned(message.destination_username) is Some
            ==> destination_label(message) == "@"@ + without_leading(
            cleaned(message.destination_username)->0,
            '@',
        ),
        cleaned(message.destination_name) is None && cleaned(message.destination_username) is None
            ==> destination_label(message) == "chat "@ + decimal(message.chat_id as int),
{
}

/// The sender of a message is the user where it was sent by the local account. Else the name of the
/// sender counts, or that of the contact where the sender has none at all, or the username.
pub proof fn law_sender_label(message: MessageView)
    ensures
        message.is_outgoing ==> sender_label(message) == "user"@,
        !message.is_outgoing ==> {
            let name = if message.sender_name is Some {
                cleaned(message.sender_name)
            } else {
                cleaned(message.name)
            };
            let username = cleaned(message.sender_username);
            &&& name is Some ==> sender_label(message) == name->0
            &&& name is None && username is Some ==> sender_label(message) == "@"@
                + without_leading(username->0, '@')
            &&& name is None && username is None ==> sender_label(message) == "contact"@
        },
{
}

/// The messages of the diagnostics are those of its lines, one after the other: a line that is blank
/// or no JSON tells none.
pub proof fn law_messages_of_lines(
    lines: Seq<Seq<char>>,
    include_payload: bool,
    self_user_id: Option<i64>,
    known: Map<Seq<char>, MetadataView>,
    ids: Map<Seq<char>, Seq<char>>,
)
    ensures
        messages_on_lines(lines, include_payload, self_user_id, known, ids) == lines.filter_map(
            |line: Seq<char>|
                if nonblank(line) is Some && parsed_json(trimmed(line)) is Some {
                    message_in(
                        parsed_json(trimmed(line))->0,
                        include_payload,
                        self_user_id,
                        known,
                        ids,
                    )
                } else {
                    None
                },
        ),
    decreases lines.len(),
{
    if lines.len() > 0 {
        law_messages_of_lines(lines.drop_last(), include_payload, self_user_id, known, ids);
        let before = messages_on_lines(lines.drop_last(), include_payload, self_user_id, known, ids);
        if let Some(message) = message_on_line(
            lines.last(),
            include_payload,
            self_user_id,
            known,
            ids,
        ) {
            assert(before.push(message) =~= before + seq![message]);
        }
    }
}

/// Reading keeps every message of the lines, in the order of their dates and of the lines where the
/// dates are the same.
pub proof fn law_reading_keeps_messages(
    lines: Seq<Seq<char>>,
    include_payload: bool,
    self_user_id: Option<i64>,
    known: Map<Seq<char>, MetadataView>,
    ids: Map<Seq<char>, Seq<char>>,
    date: i128,
)
    ensures
        ({
            let found = messages_on_lines(lines, include_payload, self_user_id, known, ids);
            let read = sorted_by(found, date_order());
            &&& read.to_multiset() == found.to_multiset()
            &&& read.filter(|m: MessageView| m.date_ms == date) == found.filter(
                |m: MessageView| m.date_ms == date,
            )
        }),
{
    let found = messages_on_lines(lines, include_payload, self_user_id, known, ids);
    let on_date = |m: MessageView| m.date_ms == date;
    law_sorting_keeps_items(found, date_order());
    crate::order::lemma_select_sorted(found, date_order(), |m: MessageView| true, on_date);
    crate::order::law_select(found, on_date);
    crate::order::law_select(sorted_by(found, date_order()), on_date);
    let same = crate::order::select(found, on_date);
    crate::order::lemma_select(found, on_date);
    let before = date_order();
    assert forall|i: int, j: int| 0 <= i < j < same.len() implies !before(same[j], same[i]) by {
        assert(same.contains(same[i]) && same.contains(same[j]));
        assert(on_date(same[i]) && on_date(same[j]));
    }
    crate::order::law_sorting_keeps_order(same, date_order());
}

/// The ids of a chat that are to be normalized are that of its number and that of its username, as
/// far as it has them.
pub proof fn law_raw_ids(payload: JsonView, id: Seq<char>)
    ensures
        raw_ids_in(payload).contains(id) <==> ((payload_user(payload) is Some && id
            == "telegram-user-id@"@ + decimal(payload_user(payload)->0 as int)) || (payload.text_at(
            "chat_username"@,
        ) is Some && id == "telegram@"@ + payload.text_at("chat_username"@)->0)),
        payload_user(payload) is Some ==> payload_user(payload)->0 > 0 && (payload.signed_at(
            "chat_id"@,
        ) == payload_user(payload) || (payload.signed_at("chat_id"@) is None && payload.signed_at(
            "sender_id"@,
        ) == payload_user(payload))),
        payload.signed_at("chat_id"@) is Some && payload.signed_at("chat_id"@)->0 > 0
            ==> payload_user(payload) == payload.signed_at("chat_id"@),
        payload.signed_at("chat_id"@) is None && payload.signed_at("sender_id"@) is Some
            && payload.signed_at("sender_id"@)->0 > 0 ==> payload_user(payload)
            == payload.signed_at("sender_id"@),
{
    let raw = raw_ids_in(payload);
    if let Some(user) = payload_user(payload) {
        assert(raw[0] == numbered_id(user as int));
    }
    if let Some(username) = payload.text_at("chat_username"@) {
        assert(raw[raw.len() - 1] == named_id(username));
    }
}

/// All the ids on the lines are to be normalized: those of every chat that a line tells of.
pub proof fn law_raw_ids_on_lines(lines: Seq<Seq<char>>, k: int, id: Seq<char>)
    requires
        0 <= k < lines.len(),
        nonblank(lines[k]) is Some,
        parsed_json(trimmed(lines[k])) is Some,
        raw_ids_in(parsed_json(trimmed(lines[k]))->0).contains(id),
    ensures
        raw_ids_on_lines(lines).contains(id),
    decreases lines.len(),
{
    let rest = lines.drop_last();
    let before = raw_ids_on_lines(rest);
    let all = raw_ids_on_lines(lines);
    if k < rest.len() {
        assert(rest[k] == lines[k]);
        law_raw_ids_on_lines(rest, k, id);
        let j = before.index_of(id);
        assert(all[j] == id);
    } else {
        let own = raw_ids_in(parsed_json(trimmed(lines[k]))->0);
        let j = own.index_of(id);
        assert(all[before.len() + j] == id);
    }
}

/// The public username of a message is that of the chat, without white space and leading `@`, or
/// else the one that is known of the contact.
pub proof fn law_message_username(
    payload: JsonView,
    include_payload: bool,
    self_user_id: Option<i64>,
    known: Map<Seq<char>, MetadataView>,
    ids: Map<Seq<char>, Seq<char>>,
)
    requires
        message_in(payload, include_payload, self_user_id, known, ids) is Some,
    ensures
        ({
            let read = message_in(payload, include_payload, self_user_id, known, ids)->0;
            let told = match payload.text_at("chat_username"@) {
                Some(username) => without_leading(trimmed(username), '@'),
                None => Seq::empty(),
            };
            &&& told.len() > 0 ==> read.public_username == Some(told)
            &&& told.len() == 0 ==> read.public_username == (match lookup(known, read.contact_id) {
                Some(metadata) => metadata.public_username,
                None => None,
            })
        }),
{
    reveal_strlit("user");
    if let Some(username) = payload.text_at("chat_username"@) {
        crate::text::law_trimmed_again(username);
    }
}

/// In a chat that is not with one user, a contact is named by the sender, and the chat by its title
/// or its username.
pub proof fn law_group_names(
    payload: JsonView,
    chat_kind: Seq<char>,
    contact_name: Option<Seq<char>>,
)
    requires
        chat_kind != "user"@,
    ensures
        contact_name_in(payload, chat_kind) == cleaned(payload.text_at("sender_name"@)),
        contact_username_in(payload, chat_kind) == cleaned(payload.text_at("sender_username"@)),
        ({
            let title = cleaned(payload.text_at("chat_title"@));
            let username = cleaned(payload.text_at("chat_username"@));
            &&& title is Some ==> destination_in(payload, chat_kind, contact_name) == title
            &&& title is None && username is Some ==> destination_in(
                payload,
                chat_kind,
                contact_name,
            ) == Some("@"@ + without_leading(username->0, '@'))
            &&& title is None && username is None ==> destination_in(
                payload,
                chat_kind,
                contact_name,
            ) is None
        }),
{
}

/// In a chat with one user, a contact is named by the title of the chat, or by the sender where the
/// chat has no title, and its username is that of the chat.
pub proof fn law_direct_names(payload: JsonView)
    ensures
        payload.member("chat_title"@) is Some ==> contact_name_in(payload, "user"@) == cleaned(
            payload.text_at("chat_title"@),
        ),
        payload.member("chat_title"@) is None ==> contact_name_in(payload, "user"@) == cleaned(
            payload.text_at("sender_name"@),
        ),
        contact_username_in(payload, "user"@) == cleaned(payload.text_at("chat_username"@)),
{
}

/// A contact is shown with the name that is known of it, or else with the one in the payload, with the
/// username behind it where the name alone does not tell enough, and with the username alone where
/// there is no name.
pub proof fn law_shown_name(
    payload: JsonView,
    chat_kind: Seq<char>,
    known: Map<Seq<char>, MetadataView>,
    ids: Map<Seq<char>, Seq<char>>,
)
    ensures
        ({
            let id = contact_id_in(payload, chat_kind, ids);
            let cached = if id is Some && known.contains_key(id->0) {
                known[id->0].name
            } else {
                None
            };
            let name = if cached is Some {
                cached
            } else {
                contact_name_in(payload, chat_kind)
            };
            let username = contact_username_in(payload, chat_kind);
            let shown = display_name_in(payload, chat_kind, known, ids);
            &&& name is None && username is None ==> shown is None
            &&& name is Some && username is None ==> shown == name
            &&& name is None && username is Some ==> shown == Some("@"@ + username->0)
            &&& name is Some && username is Some && !shows_handle(name->0, username->0) ==> shown
                == name
            &&& name is Some && username is Some && shows_handle(name->0, username->0) ==> shown
                == Some(name->0 + " (@"@ + username->0 + ")"@)
        }),
{
}

} // verus!
