//! What the payloads of past events tell of contacts.

use crate::json::{Json, JsonView};
use crate::messages::{payload_text, telegram_payload_string};
use crate::text::{
    clean_opt, cleaned, decimal, first_of, joined, opt_str, opt_text, own, same_text, signed_text,
    starts, starts_with,
};
use crate::text_map::{lookup, TextMap};
use vstd::prelude::*;
use vstd::string::*;

verus! {

pub open spec fn inner_flag(payload: JsonView, key: Seq<char>) -> Option<bool> {
    match payload.member("message"@) {
        Some(message) => message.flag_at(key),
        None => None,
    }
}

/// The payload says that the chat or the sender is a bot.
pub open spec fn bot_flag(payload: JsonView) -> bool {
    ||| payload.flag_at("chat_is_bot"@) == Some(true)
    ||| payload.flag_at("sender_is_bot"@) == Some(true)
    ||| payload.flag_at("is_bot"@) == Some(true)
    ||| payload.flag_at("bot"@) == Some(true)
    ||| inner_flag(payload, "sender_is_bot"@) == Some(true)
    ||| inner_flag(payload, "is_bot"@) == Some(true)
}

/// The name in a payload: in a chat with one person its title, or else the display name that
/// connectors read from the payload.
pub open spec fn name_in(payload: JsonView, display_name: Option<Seq<char>>) -> Option<Seq<char>> {
    if payload.text_at("chat_kind"@) == Some("user"@) {
        first_of(payload_text(payload, "chat_title"@), display_name)
    } else {
        display_name
    }
}

/// The name of a contact in an event: for a Telegram contact the known name before the one in the
/// payload.
pub open spec fn event_name(
    id: Seq<char>,
    payload: Option<JsonView>,
    display_name: Option<Seq<char>>,
    names: Map<Seq<char>, Seq<char>>,
) -> Option<Seq<char>> {
    let known = if starts(id, "telegram@"@) {
        cleaned(lookup(names, id))
    } else {
        None
    };
    first_of(
        known,
        match payload {
            Some(payload) => name_in(payload, display_name),
            None => None,
        },
    )
}

pub open spec fn prefixed(prefix: Seq<char>, text: Option<Seq<char>>) -> Option<Seq<char>> {
    match text {
        Some(text) => Some(prefix + text),
        None => None,
    }
}

/// The label of where an event was sent to.
pub open spec fn event_destination(payload: JsonView, display_name: Option<Seq<char>>) -> Seq<char> {
    let person = if payload.text_at("chat_kind"@) == Some("user"@) {
        name_in(payload, display_name)
    } else {
        None
    };
    let chat = match payload.signed_at("chat_id"@) {
        Some(id) => Some("chat "@ + decimal(id as int)),
        None => None,
    };
    match first_of(
        person,
        first_of(
            payload_text(payload, "chat_title"@),
            first_of(prefixed("@"@, payload_text(payload, "chat_username"@)), chat),
        ),
    ) {
        Some(label) => label,
        None => "unknown"@,
    }
}

/// The label of who sent an event.
pub open spec fn event_sender(payload: JsonView) -> Seq<char> {
    if payload.flag_at("is_outgoing"@) == Some(true) {
        "user"@
    } else {
        match first_of(
            payload_text(payload, "sender_name"@),
            first_of(
                payload_text(payload, "chat_title"@),
                prefixed("@"@, payload_text(payload, "sender_username"@)),
            ),
        ) {
            Some(label) => label,
            None => "contact"@,
        }
    }
}

/// The text of an event as context: with its destination and its sender where it stands in a chat.
pub open spec fn event_text(
    payload: Option<JsonView>,
    display_name: Option<Seq<char>>,
    text: Seq<char>,
) -> Seq<char> {
    match payload {
        Some(payload) => if payload.text_at("chat_kind"@) is Some {
            "[history][dest: "@ + event_destination(payload, display_name) + "][from: "@
                + event_sender(payload) + "] "@ + text
        } else {
            text
        },
        None => text,
    }
}

pub open spec fn opt_payload(payload: Option<&Json>) -> Option<JsonView> {
    match payload {
        Some(payload) => Some(payload@),
        None => None,
    }
}

fn inner_bool(payload: &Json, key: &str) -> (r: Option<bool>)
    ensures
        r == inner_flag(payload@, key@),
{
    match payload.get("message") {
        Some(message) => message.bool_at(key),
        None => None,
    }
}

/// Whether a payload says that the chat or the sender is a bot.
pub fn payload_has_bot_flag(payload: &Json) -> (r: bool)
    ensures
        r == bot_flag(payload@),
{
    payload.bool_at("chat_is_bot") == Some(true) || payload.bool_at("sender_is_bot") == Some(true)
        || payload.bool_at("is_bot") == Some(true) || payload.bool_at("bot") == Some(true)
        || inner_bool(payload, "sender_is_bot") == Some(true) || inner_bool(payload, "is_bot")
        == Some(true)
}

/// The trimmed text under a key, where it is not blank.
pub fn history_payload_string(payload: &Json, key: &str) -> (r: Option<String>)
    ensures
        opt_text(r) == payload_text(payload@, key@),
{
    telegram_payload_string(payload, key)
}

fn is_user_chat(payload: &Json) -> (r: bool)
    ensures
        r == (payload@.text_at("chat_kind"@) == Some("user"@)),
{
    match payload.str_at("chat_kind") {
        Some(kind) => same_text(kind, "user"),
        None => false,
    }
}

/// The name in a payload.
pub fn name_from_payload(payload: &Json, display_name: Option<&str>) -> (r: Option<String>)
    ensures
        opt_text(r) == name_in(payload@, opt_str(display_name)),
{
    if is_user_chat(payload) {
        if let Some(title) = history_payload_string(payload, "chat_title") {
            return Some(title);
        }
    }
    own(display_name)
}

/// The name of a contact in an event.
pub fn history_candidate_name(
    id: &str,
    payload: Option<&Json>,
    display_name: Option<&str>,
    telegram_peer_names: &TextMap<String>,
) -> (r: Option<String>)
    ensures
        opt_text(r) == event_name(
            id@,
            opt_payload(payload),
            opt_str(display_name),
            telegram_peer_names@,
        ),
{
    if starts_with(id, "telegram@") {
        if let Some(name) = telegram_peer_names.get(id) {
            if let Some(name) = clean_opt(Some(name.as_str())) {
                return Some(name.to_owned());
            }
        }
    }
    match payload {
        Some(payload) => name_from_payload(payload, display_name),
        None => None,
    }
}

/// The label of where an event was sent to.
pub fn history_destination_label(payload: &Json, display_name: Option<&str>) -> (r: String)
    ensures
        r@ == event_destination(payload@, opt_str(display_name)),
{
    if is_user_chat(payload) {
        if let Some(name) = name_from_payload(payload, display_name) {
            return name;
        }
    }
    if let Some(title) = history_payload_string(payload, "chat_title") {
        return title;
    }
    if let Some(username) = history_payload_string(payload, "chat_username") {
        return joined("@", username.as_str());
    }
    match payload.i64_at("chat_id") {
        Some(id) => joined("chat ", signed_text(id).as_str()),
        None => "unknown".to_owned(),
    }
}

/// The label of who sent an event.
pub fn history_sender_label(payload: &Json) -> (r: String)
    ensures
        r@ == event_sender(payload@),
{
    if payload.bool_at("is_outgoing") == Some(true) {
        return "user".to_owned();
    }
    if let Some(name) = history_payload_string(payload, "sender_name") {
        return name;
    }
    if let Some(title) = history_payload_string(payload, "chat_title") {
        return title;
    }
    match history_payload_string(payload, "sender_username") {
        Some(username) => joined("@", username.as_str()),
        None => "contact".to_owned(),
    }
}

/// The text of an event as context.
pub fn history_context_text(payload: Option<&Json>, display_name: Option<&str>, text: &str) -> (r:
    String)
    ensures
        r@ == event_text(opt_payload(payload), opt_str(display_name), text@),
{
    match payload {
        Some(payload) => {
            if payload.str_at("chat_kind").is_none() {
                return text.to_owned();
            }
            joined(
                "[history][dest: ",
                history_destination_label(payload, display_name).as_str(),
            ).concat("][from: ").concat(history_sender_label(payload).as_str()).concat("] ").concat(
                text,
            )
        },
        None => text.to_owned(),
    }
}

/// Any one of the flags for a chat, a sender or an event makes it that of a bot, and so does one in
/// the message inside. Without any of them it is none.
pub proof fn law_bot_flags(payload: JsonView)
    ensures
        payload.flag_at("chat_is_bot"@) == Some(true) ==> bot_flag(payload),
        payload.flag_at("sender_is_bot"@) == Some(true) ==> bot_flag(payload),
        payload.flag_at("is_bot"@) == Some(true) ==> bot_flag(payload),
        payload.flag_at("bot"@) == Some(true) ==> bot_flag(payload),
        payload.member("message"@) is Some && (payload.member("message"@)->0.flag_at(
            "sender_is_bot"@,
        ) == Some(true) || payload.member("message"@)->0.flag_at("is_bot"@) == Some(true))
            ==> bot_flag(payload),
        bot_flag(payload) && payload.member("message"@) is None ==> payload.flag_at(
            "chat_is_bot"@,
        ) == Some(true) || payload.flag_at("sender_is_bot"@) == Some(true) || payload.flag_at(
            "is_bot"@,
        ) == Some(true) || payload.flag_at("bot"@) == Some(true),
        payload.flag_at("chat_is_bot"@) != Some(true) && payload.flag_at("sender_is_bot"@) != Some(
            true,
        ) && payload.flag_at("is_bot"@) != Some(true) && payload.flag_at("bot"@) != Some(true)
            && payload.member("message"@) is Some && payload.member("message"@)->0.flag_at(
            "sender_is_bot"@,
        ) != Some(true) && payload.member("message"@)->0.flag_at("is_bot"@) != Some(true)
            ==> !bot_flag(payload),
{
}

/// An event in a chat with one user is named by the title of the chat, and else by what connectors
/// read from it.
pub proof fn law_names_in_events(payload: JsonView, display_name: Option<Seq<char>>)
    ensures
        payload.text_at("chat_kind"@) == Some("user"@) && cleaned(
            payload.text_at("chat_title"@),
        ) is Some ==> name_in(payload, display_name) == cleaned(payload.text_at("chat_title"@)),
        payload.text_at("chat_kind"@) == Some("user"@) && cleaned(
            payload.text_at("chat_title"@),
        ) is None ==> name_in(payload, display_name) == display_name,
        payload.text_at("chat_kind"@) != Some("user"@) ==> name_in(payload, display_name)
            == display_name,
{
}

/// A Telegram contact that is known by name is named by the cache, where that has a name for it, and
/// every other contact by the event.
pub proof fn law_event_name(
    id: Seq<char>,
    payload: Option<JsonView>,
    display_name: Option<Seq<char>>,
    names: Map<Seq<char>, Seq<char>>,
)
    ensures
        starts(id, "telegram@"@) && names.contains_key(id) && cleaned(Some(names[id])) is Some
            ==> event_name(id, payload, display_name, names) == cleaned(Some(names[id])),
        !starts(id, "telegram@"@) || !names.contains_key(id) || cleaned(Some(names[id])) is None
            ==> event_name(id, payload, display_name, names) == (match payload {
            Some(payload) => name_in(payload, display_name),
            None => None,
        }),
{
}

/// An event was sent to the person of its chat, or else to the chat by its title, its username or
/// its number, whichever comes first.
pub proof fn law_event_destination(payload: JsonView, display_name: Option<Seq<char>>)
    ensures
        ({
            let label = event_destination(payload, display_name);
            let person = payload.text_at("chat_kind"@) == Some("user"@) && name_in(
                payload,
                display_name,
            ) is Some;
            let title = cleaned(payload.text_at("chat_title"@));
            let username = cleaned(payload.text_at("chat_username"@));
            let number = payload.signed_at("chat_id"@);
            &&& person ==> label == name_in(payload, display_name)->0
            &&& !person && title is Some ==> label == title->0
            &&& !person && title is None && username is Some ==> label == "@"@ + username->0
            &&& !person && title is None && username is None && number is Some ==> label
                == "chat "@ + decimal(number->0 as int)
            &&& !person && title is None && username is None && number is None ==> label
                == "unknown"@
        }),
{
}

/// An event was sent by the user, or else by the sender by name, by the title of the chat or by
/// username, whichever comes first.
pub proof fn law_event_sender(payload: JsonView)
    ensures
        ({
            let label = event_sender(payload);
            let sent = payload.flag_at("is_outgoing"@) == Some(true);
            let name = cleaned(payload.text_at("sender_name"@));
            let title = cleaned(payload.text_at("chat_title"@));
            let username = cleaned(payload.text_at("sender_username"@));
            &&& sent ==> label == "user"@
            &&& !sent && name is Some ==> label == name->0
            &&& !sent && name is None && title is Some ==> label == title->0
            &&& !sent && name is None && title is None && username is Some ==> label == "@"@
                + username->0
            &&& !sent && name is None && title is None && username is None ==> label == "contact"@
        }),
{
}

/// An event in a chat is shown with where it was sent to and who sent it, and every other event by
/// its text alone.
pub proof fn law_event_text(
    payload: JsonView,
    display_name: Option<Seq<char>>,
    text: Seq<char>,
)
    ensures
        event_text(None, display_name, text) == text,
        payload.text_at("chat_kind"@) is None ==> event_text(Some(payload), display_name, text)
            == text,
        payload.text_at("chat_kind"@) is Some ==> event_text(Some(payload), display_name, text)
            == "[history][dest: "@ + event_destination(payload, display_name) + "][from: "@
            + event_sender(payload) + "] "@ + text,
{
}

} // verus!
