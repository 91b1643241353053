use puffer_contacts::history::{
    history_candidate_name, history_context_text, name_from_payload, payload_has_bot_flag,
};
use puffer_contacts::collect::{
    collect_telegram_peer_cache_candidates, merge_connector_contacts, merge_history_candidate_run,
    merge_ranked_telegram_candidates, HistoryRun,
};
use puffer_contacts::json::{parse_json, Json};
use puffer_contacts::messages::{
    read_telegram_message, read_telegram_messages, telegram_contact_display_name,
    telegram_contact_id, telegram_contact_name, telegram_destination_label,
    telegram_payload_is_self_contact, telegram_raw_contact_ids, telegram_sender_label,
    TelegramDiagMessage,
};
use puffer_contacts::models::{
    Candidate, CandidateContextOptions, CandidateDraft, ConnectorContact, ContactContext,
    ContactDisplay, INFERENCE_CONTEXT_LIMIT, MIN_CONTEXT_MESSAGES_PER_CANDIDATE,
};
use puffer_contacts::peer_metadata::{
    peer_cache_raw_ids, peer_metadata_from_cache, read_telegram_peer_avatars,
    read_telegram_peer_metadata, read_telegram_peer_metadata_from_account,
    read_telegram_peer_names, read_telegram_primary_peer_metadata_from_account,
    telegram_session_user_contact_id, TelegramPeerMetadata, TelegramPeerMetadataIdMode,
};
use puffer_contacts::replies::{message_positions, reply_index};
use puffer_contacts::score::{ScoreStep, SCORE_FLOOR};
use puffer_contacts::text_map::TextMap;
use puffer_contacts::window::{
    elapsed_ms, rank_telegram_messages, score_telegram_window, WindowCandidate, DAY_MS,
};

fn json(text: &str) -> Json {
    parse_json(text).unwrap()
}

fn normalize(raw: &str) -> Option<String> {
    let (prefix, rest) = raw.split_once('@')?;
    let known = ["telegram", "telegram-user-id", "google", "lark"];
    if known.contains(&prefix) && !rest.is_empty() {
        Some(raw.to_ascii_lowercase())
    } else {
        None
    }
}

fn table(raw: &[String]) -> TextMap<String> {
    let mut ids = TextMap::new();
    for id in raw {
        if let Some(normal) = normalize(id) {
            ids.insert(id.clone(), normal);
        }
    }
    ids
}

fn contact_id(payload: &str, chat_kind: &str) -> Option<String> {
    let payload = json(payload);
    telegram_contact_id(&payload, chat_kind, &table(&telegram_raw_contact_ids(&payload)))
}

fn text_in(payload: &Json, key: &str) -> Option<String> {
    payload
        .str_at(key)
        .map(str::trim)
        .filter(|value| !value.is_empty())
        .map(ToOwned::to_owned)
}

fn read_test_message(payload: &str) -> TelegramDiagMessage {
    let payload = json(payload);
    let chat_kind = payload.str_at("chat_kind").unwrap().to_string();
    let name = telegram_contact_name(&payload, &chat_kind);
    let username = text_in(&payload, "chat_username");
    let destination_name = name
        .clone()
        .or_else(|| text_in(&payload, "chat_title"))
        .or_else(|| username.clone().map(|value| format!("@{value}")));
    let ids = table(&telegram_raw_contact_ids(&payload));
    TelegramDiagMessage {
        contact_id: telegram_contact_id(&payload, &chat_kind, &ids).unwrap(),
        name,
        public_username: username.clone(),
        avatar: None,
        destination_name,
        destination_username: username,
        chat_id: payload.i64_at("chat_id").unwrap_or(0),
        chat_kind,
        sender_username: payload.str_at("sender_username").map(ToOwned::to_owned),
        sender_name: text_in(&payload, "sender_name"),
        is_outgoing: payload.bool_at("is_outgoing").unwrap_or(false),
        is_self_contact: payload.bool_at("is_self_contact").unwrap_or(false),
        date_ms: payload.i64_at("date_ms").unwrap() as i128,
        message_id: payload.i64_at("message_id"),
        reply_to_message_id: payload
            .get("reply_to")
            .and_then(|reply_to| reply_to.i64_at("message_id")),
        text: payload.str_at("text_prefix").unwrap().to_string(),
        payload,
    }
}

fn find<'a>(ranked: &'a [WindowCandidate], id: &str) -> Option<&'a WindowCandidate> {
    ranked.iter().find(|item| item.candidate.id == id)
}

fn group_message(index: i64, outgoing: bool, text: &str) -> TelegramDiagMessage {
    TelegramDiagMessage {
        contact_id: "telegram@ricky".to_string(),
        name: None,
        public_username: None,
        avatar: None,
        destination_name: None,
        destination_username: None,
        chat_id: -7,
        chat_kind: "group".to_string(),
        sender_username: Some("Ricky".to_string()),
        sender_name: None,
        is_outgoing: outgoing,
        is_self_contact: false,
        date_ms: index as i128 * 1000,
        message_id: Some(index),
        reply_to_message_id: None,
        text: text.to_string(),
        payload: Json::Null,
    }
}

#[test]
fn telegram_candidates_require_private_users_and_ignore_bots_groups() {
    assert_eq!(
        contact_id(r#"{"chat_kind": "user", "chat_id": 5, "chat_username": "Alice"}"#, "user"),
        Some("telegram-user-id@5".to_string())
    );
    assert_eq!(
        contact_id(
            r#"{"chat_kind": "user", "chat_id": 5229190700, "chat_title": "Direct Numeric"}"#,
            "user"
        ),
        Some("telegram-user-id@5229190700".to_string())
    );
    assert!(contact_id(
        r#"{"chat_kind": "group", "chat_id": -1, "sender_id": 42, "sender_is_bot": true}"#,
        "group"
    )
    .is_none());
    assert!(contact_id(
        r#"{"chat_kind": "user", "chat_username": "alertbot", "chat_is_bot": true}"#,
        "user"
    )
    .is_none());
    assert!(
        contact_id(r#"{"chat_kind": "group", "sender_username": "deploy"}"#, "group").is_none()
    );
    assert!(contact_id(
        r#"{"chat_kind": "group", "chat_id": -1, "sender_id": 42, "sender_name": "Numeric Only"}"#,
        "group"
    )
    .is_none());
    assert!(contact_id(
        r#"{"chat_kind": "channel", "chat_id": -100, "sender_username": "news"}"#,
        "channel"
    )
    .is_none());
    assert!(contact_id(
        r#"{"chat_kind": "group", "sender_username": "deploybot", "sender_is_bot": true}"#,
        "group"
    )
    .is_none());
    assert!(
        contact_id(r#"{"chat_kind": "user", "chat_username": "alertbot"}"#, "user").is_none()
    );
    assert!(
        contact_id(r#"{"chat_kind": "group", "sender_username": "deploybot"}"#, "group").is_none()
    );
}

#[test]
fn contact_ids_fall_back_to_usernames() {
    assert_eq!(
        contact_id(r#"{"chat_id": -5, "sender_id": 9, "chat_username": "alice"}"#, "user"),
        Some("telegram@alice".to_string())
    );
    assert_eq!(
        contact_id(r#"{"sender_id": 9, "chat_username": "alice"}"#, "user"),
        Some("telegram-user-id@9".to_string())
    );
    assert_eq!(contact_id(r#"{"chat_title": "Alice"}"#, "user"), None);
    assert_eq!(
        telegram_session_user_contact_id(Some(5), &table(&["telegram-user-id@5".to_string()])),
        Some("telegram-user-id@5".to_string())
    );
    assert_eq!(
        telegram_session_user_contact_id(None, &TextMap::new()),
        None
    );
}

#[test]
fn telegram_candidates_ignore_self_chat_messages() {
    let self_message = read_test_message(
        r#"{
        "stage": "emitted",
        "chat_kind": "user",
        "chat_id": 42,
        "chat_username": "me",
        "chat_title": "Me",
        "sender_id": 42,
        "sender_username": "me",
        "sender_name": "Me",
        "message_id": 1,
        "date_ms": 1700000000000,
        "is_self_contact": true,
        "text_prefix": "private note to myself"
    }"#,
    );

    let ranked = score_telegram_window(&[self_message]);

    assert!(ranked.is_empty());
}

#[test]
fn telegram_personal_reply_requires_next_same_chat_message() {
    let first = read_test_message(
        r#"{
        "stage": "emitted",
        "chat_kind": "user",
        "chat_id": 5,
        "chat_username": "alice",
        "chat_title": "Alice",
        "message_id": 1,
        "date_ms": 1700000000000,
        "text_prefix": "first question"
    }"#,
    );
    let second = read_test_message(
        r#"{
        "stage": "emitted",
        "chat_kind": "user",
        "chat_id": 5,
        "chat_username": "alice",
        "chat_title": "Alice",
        "message_id": 2,
        "date_ms": 1700000060000,
        "text_prefix": "second question"
    }"#,
    );
    let outgoing = read_test_message(
        r#"{
        "stage": "emitted",
        "chat_kind": "user",
        "chat_id": 5,
        "chat_username": "alice",
        "chat_title": "Alice",
        "message_id": 3,
        "date_ms": 1700000120000,
        "is_outgoing": true,
        "text_prefix": "reply to the second question"
    }"#,
    );
    let messages = vec![first, second, outgoing];
    let by_id = message_positions(&messages);

    assert_eq!(reply_index(&messages, &by_id, 0, &messages[0]), None);
    assert_eq!(reply_index(&messages, &by_id, 1, &messages[1]), Some(2));
    assert_eq!(reply_index(&messages, &by_id, 9, &messages[1]), None);
}

#[test]
fn group_replies_are_found_by_number_and_by_mention() {
    let mut messages = vec![
        group_message(1, false, "who is up"),
        group_message(2, true, "hello all"),
        group_message(3, true, "me too @RICKY"),
        group_message(4, true, "an answer"),
    ];
    let by_id = message_positions(&messages);
    assert_eq!(reply_index(&messages, &by_id, 0, &messages[0]), Some(2));
    messages[3].reply_to_message_id = Some(1);
    assert_eq!(reply_index(&messages, &by_id, 0, &messages[0]), Some(3));
    messages[3].message_id = None;
    assert_eq!(reply_index(&messages, &by_id, 0, &messages[0]), None);
    messages[3].reply_to_message_id = None;
    messages[0].sender_username = None;
    assert_eq!(reply_index(&messages, &by_id, 0, &messages[0]), None);

    let mut far: Vec<TelegramDiagMessage> = vec![group_message(0, false, "question")];
    for index in 1..=26 {
        far.push(group_message(index, true, "noise"));
    }
    let by_id = message_positions(&far);
    far[25].text = "hi @ricky".to_string();
    assert_eq!(reply_index(&far, &by_id, 0, &far[0]), Some(25));
    far[25].text = "noise".to_string();
    far[26].text = "hi @ricky".to_string();
    assert_eq!(reply_index(&far, &by_id, 0, &far[0]), None);
}

#[test]
fn telegram_candidates_prefer_full_names() {
    let first = read_test_message(
        r#"{
        "stage": "emitted",
        "chat_kind": "user",
        "chat_id": 5,
        "chat_username": "alice",
        "chat_title": "Alice",
        "message_id": 1,
        "date_ms": 1700000000000,
        "text_prefix": "first question"
    }"#,
    );
    let second = read_test_message(
        r#"{
        "stage": "emitted",
        "chat_kind": "user",
        "chat_id": 5,
        "chat_username": "alice",
        "chat_title": "Alice Smith",
        "message_id": 2,
        "date_ms": 1700000060000,
        "text_prefix": "second question"
    }"#,
    );

    let ranked = score_telegram_window(&[first, second]);

    assert_eq!(
        find(&ranked, "telegram-user-id@5").and_then(|item| item.candidate.name.as_deref()),
        Some("Alice Smith")
    );
}

#[test]
fn telegram_context_marks_recent_messages_and_interaction_replies() {
    let mut messages = Vec::new();
    let base_ms = 1_700_000_000_000_i64;
    for index in 0..12 {
        let incoming_id = (index * 2 + 1) as i64;
        let reply_id = (index * 2 + 2) as i64;
        messages.push(read_test_message(&format!(
            r#"{{
            "stage": "emitted",
            "chat_kind": "user",
            "chat_id": 5,
            "chat_username": "alice",
            "chat_title": "Alice Smith",
            "message_id": {incoming_id},
            "date_ms": {},
            "text_prefix": "question {index} about the launch plan"
        }}"#,
            base_ms + (index as i64 * 120_000)
        )));
        messages.push(read_test_message(&format!(
            r#"{{
            "stage": "emitted",
            "chat_kind": "user",
            "chat_id": 5,
            "chat_username": "alice",
            "chat_title": "Alice Smith",
            "message_id": {reply_id},
            "date_ms": {},
            "is_outgoing": true,
            "text_prefix": "answer {index} about the launch plan"
        }}"#,
            base_ms + (index as i64 * 120_000) + 60_000
        )));
    }

    let ranked = score_telegram_window(&messages);
    let context = &find(&ranked, "telegram-user-id@5").unwrap().candidate.context;

    assert_eq!(context.len(), 40);
    assert_eq!(
        context
            .iter()
            .filter(|item| item.kind == "telegram_recent_message")
            .count(),
        20
    );
    assert_eq!(
        context
            .iter()
            .filter(|item| item.kind == "telegram_interaction_contact_message")
            .count(),
        10
    );
    assert_eq!(
        context
            .iter()
            .filter(|item| item.kind == "telegram_interaction_user_reply")
            .count(),
        10
    );
    assert!(context
        .iter()
        .all(|item| item.text.contains("[dest: Alice Smith]")));
    assert!(context.iter().any(|item| {
        item.kind == "telegram_interaction_user_reply"
            && item.text.contains("[from: user]")
            && item.text.contains("answer 11")
    }));
    assert_eq!(
        context[0]
            .payload
            .get("destination")
            .and_then(|destination| destination.str_at("label")),
        Some("Alice Smith")
    );
    assert_eq!(context[0].payload.str_at("context_section"), Some("recent"));
    assert_eq!(
        context[0].text,
        "[recent 1/20][dest: Alice Smith][from: Alice Smith] question 2 about the launch plan"
    );
    assert_eq!(context[20].payload.str_at("pair_id"), Some("telegram-reply-5"));
    assert_eq!(context[21].payload.str_at("pair_id"), Some("telegram-reply-5"));
    assert_eq!(
        context[21].text,
        "[interacted/user_reply 1/10][dest: Alice Smith][from: user] answer 2 about the launch plan"
    );
    assert_eq!(context[21].payload.i64_at("context_index"), Some(1));
    assert_eq!(
        context[21].payload.get("raw").and_then(|raw| raw.i64_at("message_id")),
        Some(6)
    );

    let score = &find(&ranked, "telegram-user-id@5").unwrap().score;
    assert_eq!(score.outgoing.len(), 12);
    assert_eq!(score.replies.len(), 12);
    assert_eq!(score.replies[0].delay_ms, 60_000);
    assert_eq!(score.personal_days.len(), 1);
    assert_eq!(score.first_half_count + score.second_half_count, 24);
    assert_eq!(score.halves(), (12, 12));
    assert_eq!(score.day_count(), 1);
}

#[test]
fn telegram_context_keeps_twenty_recent_messages_when_available() {
    let mut messages = Vec::new();
    let base_ms = 1_700_000_000_000_i64;
    for index in 0..25 {
        messages.push(read_test_message(&format!(
            r#"{{
            "stage": "emitted",
            "chat_kind": "user",
            "chat_id": 5,
            "chat_username": "alice",
            "chat_title": "Alice Smith",
            "message_id": {},
            "date_ms": {},
            "is_outgoing": true,
            "text_prefix": "recent context message {index} about the launch plan"
        }}"#,
            index + 1,
            base_ms + (index as i64 * 60_000)
        )));
    }

    let ranked = score_telegram_window(&messages);
    let context = &find(&ranked, "telegram-user-id@5").unwrap().candidate.context;

    assert_eq!(
        context
            .iter()
            .filter(|item| item.kind == "telegram_recent_message")
            .count(),
        MIN_CONTEXT_MESSAGES_PER_CANDIDATE
    );
    assert!(context
        .iter()
        .any(|item| item.text.contains("recent context message 24")));
    assert!(!context
        .iter()
        .any(|item| item.text.contains("recent context message 4")));
}

#[test]
fn windows_grow_until_there_are_enough_contacts() {
    let mut messages = Vec::new();
    for index in 0..2500i64 {
        let mut message = group_message(index, true, "text");
        message.chat_kind = "user".to_string();
        // The first messages are with many contacts, the last ones with one.
        let contact = if index < 1000 { index % 50 } else { 999 };
        message.contact_id = format!("telegram-user-id@{contact:03}");
        messages.push(message);
    }
    let window = rank_telegram_messages(&messages, CandidateContextOptions::none());
    assert_eq!(window.start, 500);
    assert_eq!(window.candidates.len(), 51);
    assert_eq!(window.candidates[0].candidate.id, "telegram-user-id@000");
    assert!(window.candidates[0].candidate.context.is_empty());
    for message in messages.iter_mut().skip(1000) {
        message.contact_id = format!("telegram-user-id@{:03}", message.message_id.unwrap() % 40);
    }
    let window = rank_telegram_messages(&messages, CandidateContextOptions::none());
    assert_eq!(window.start, 1500);
    assert_eq!(window.candidates.len(), 40);
    let empty = rank_telegram_messages(&Vec::new(), CandidateContextOptions::none());
    assert_eq!((empty.start, empty.candidates.len()), (0, 0));
}

#[test]
fn contacts_known_by_name_alone_need_an_interaction() {
    let mut messages = vec![group_message(1, false, "hello")];
    assert!(score_telegram_window(&messages).is_empty());
    messages.push(group_message(2, true, "hi @ricky"));
    let ranked = score_telegram_window(&messages);
    assert_eq!(ranked.len(), 1);
    assert_eq!(ranked[0].score.replies[0].reply, 1);
    assert_eq!(ranked[0].score.replies[0].delay_ms, 60_000);
    messages[0].contact_id = "telegram-user-id@8".to_string();
    messages.truncate(1);
    assert_eq!(score_telegram_window(&messages).len(), 1);
}

#[test]
fn old_messages_count_less() {
    assert_eq!(elapsed_ms(10, 5), DAY_MS);
    assert_eq!(elapsed_ms(5 * DAY_MS, DAY_MS), 4 * DAY_MS);
    assert_eq!(elapsed_ms(0, 7), DAY_MS);
}

fn known_alice() -> TextMap<TelegramPeerMetadata> {
    let mut known = TextMap::new();
    known.insert(
        "telegram-user-id@5".to_string(),
        TelegramPeerMetadata {
            name: Some("Alice Liddell".to_string()),
            public_username: Some("alice".to_string()),
            avatar: Some("data:avatar".to_string()),
            last_message_at_ms: Some(9),
        },
    );
    known
}

#[test]
fn lines_are_read_and_sorted_by_date() {
    let lines: Vec<String> = [
        "",
        "not json",
        r#"{"stage": "queued", "chat_kind": "user", "chat_id": 5, "text": "x"}"#,
        r#"{"stage": "emitted", "chat_kind": "user", "chat_id": 5, "text": "muted", "notification_muted": true}"#,
        r#"{"stage": "emitted", "chat_kind": "group", "chat_id": 5, "text": "group"}"#,
        r#"{"stage": "emitted", "chat_kind": "user", "chat_id": 5, "text": "   "}"#,
        r#"{"stage": "emitted", "chat_kind": "user", "text": "nobody"}"#,
        r#"  {"stage": "emitted", "chat_kind": "user", "chat_id": 5, "text": " later ", "date_ms": 20, "message_id": 2, "reply_to": {"message_id": 1}, "is_outgoing": true} "#,
        r#"{"stage": "emitted", "chat_kind": "user", "chat_id": 5, "text_prefix": "earlier", "text": "unused", "date_ms": 10, "message_id": 1, "sender_name": " Alice "}"#,
        r#"{"stage": "emitted", "chat_kind": "user", "chat_id": 6, "text": "me", "date_ms": 20}"#,
    ]
    .iter()
    .map(|line| line.to_string())
    .collect();
    let ids = table(&[
        "telegram-user-id@5".to_string(),
        "telegram-user-id@6".to_string(),
    ]);
    let messages = read_telegram_messages(&lines, false, Some(6), &known_alice(), &ids);
    let texts: Vec<&str> = messages.iter().map(|message| message.text.as_str()).collect();
    assert_eq!(texts, vec!["earlier", "later", "me"]);
    let first = &messages[0];
    assert_eq!(first.name.as_deref(), Some("Alice Liddell"));
    assert_eq!(first.public_username.as_deref(), Some("alice"));
    assert_eq!(first.avatar.as_deref(), Some("data:avatar"));
    assert_eq!(first.destination_name.as_deref(), Some("Alice Liddell"));
    assert_eq!(first.sender_name.as_deref(), Some("Alice"));
    assert!(matches!(first.payload, Json::Null));
    assert_eq!(messages[1].reply_to_message_id, Some(1));
    assert!(messages[1].is_outgoing && !messages[1].is_self_contact);
    assert!(messages[2].is_self_contact);

    let kept = read_telegram_message(json(&lines[8]), true, None, &TextMap::new(), &ids).unwrap();
    assert_eq!(kept.payload.str_at("text"), Some("unused"));
    assert_eq!(kept.name.as_deref(), Some("Alice"));
    assert_eq!(kept.avatar, None);
}

#[test]
fn public_usernames_have_no_leading_at_sign() {
    let lines = vec![
        r#"{"stage":"emitted","chat_kind":"user","chat_id":5,"chat_username":"@alice","date_ms":1,"text":"hi"}"#.to_string(),
        r#"{"stage":"emitted","chat_kind":"user","chat_id":5,"chat_username":" @@alice ","date_ms":2,"text":"hi"}"#.to_string(),
        r#"{"stage":"emitted","chat_kind":"user","chat_id":5,"chat_username":"@","date_ms":3,"text":"hi"}"#.to_string(),
    ];
    let ids = table(&["telegram-user-id@5".to_string()]);
    let read = read_telegram_messages(&lines, false, None, &TextMap::new(), &ids);
    assert_eq!(read.len(), 3);
    assert_eq!(read[0].public_username.as_deref(), Some("alice"));
    assert_eq!(read[0].destination_username.as_deref(), Some("@alice"));
    assert_eq!(read[1].public_username.as_deref(), Some("alice"));
    assert_eq!(read[2].public_username, None);

    let known = read_telegram_messages(&lines, false, None, &known_alice(), &ids);
    assert_eq!(known[2].public_username.as_deref(), Some("alice"));
    let ranked = score_telegram_window(&read);
    let candidate = &find(&ranked, "telegram-user-id@5").unwrap().candidate;
    assert_eq!(candidate.public_username.as_deref(), Some("alice"));
}

#[test]
fn candidates_are_dated_by_their_latest_message() {
    let mut messages = Vec::new();
    for (index, id) in [(3, "1"), (9, "2"), (5, "1"), (4, "1")] {
        let mut message = group_message(index, false, "text");
        message.chat_kind = "user".to_string();
        message.contact_id = format!("telegram@{id}");
        messages.push(message);
    }
    let ranked = score_telegram_window(&messages);
    assert_eq!(ranked.len(), 2);
    assert_eq!(ranked[0].candidate.id, "telegram@1");
    assert_eq!(ranked[0].candidate.last_message_at_ms, Some(5_000));
    assert_eq!(ranked[1].candidate.id, "telegram@2");
    assert_eq!(ranked[1].candidate.last_message_at_ms, Some(9_000));
}

#[test]
fn one_word_names_are_shown_with_their_handles() {
    let ids = table(&["telegram-user-id@5".to_string()]);
    let shown = |text: &str| {
        telegram_contact_display_name(&json(text), "user", &TextMap::new(), &ids)
    };
    assert_eq!(
        shown(r#"{"chat_id": 5, "chat_username": "alice_smith", "chat_title": "Alice"}"#).as_deref(),
        Some("Alice (@alice_smith)")
    );
    assert_eq!(
        shown(r#"{"chat_id": 5, "chat_username": "rin"}"#).as_deref(),
        Some("@rin")
    );
    assert_eq!(shown(r#"{"chat_id": 5}"#), None);
    assert_eq!(
        shown(r#"{"chat_id": 5, "sender_name": "Bo Ek", "chat_username": "bo"}"#).as_deref(),
        Some("Bo Ek")
    );
}

#[test]
fn labels_fall_back_step_by_step() {
    let mut message = group_message(1, false, "x");
    assert_eq!(telegram_destination_label(&message), "chat -7");
    assert_eq!(telegram_sender_label(&message), "@Ricky");
    message.sender_username = None;
    assert_eq!(telegram_sender_label(&message), "contact");
    message.name = Some(" Rick ".to_string());
    assert_eq!(telegram_sender_label(&message), "Rick");
    message.sender_name = Some(" ".to_string());
    assert_eq!(telegram_sender_label(&message), "contact");
    message.is_outgoing = true;
    assert_eq!(telegram_sender_label(&message), "user");
    message.destination_username = Some("@@team".to_string());
    assert_eq!(telegram_destination_label(&message), "@team");
    message.destination_name = Some("Team".to_string());
    assert_eq!(telegram_destination_label(&message), "Team");
}

#[test]
fn the_local_account_is_recognised() {
    let own = Some(6);
    assert!(telegram_payload_is_self_contact("user", 6, None, false, own));
    assert!(!telegram_payload_is_self_contact("user", 6, None, false, None));
    assert!(telegram_payload_is_self_contact("group", 1, Some(6), false, own));
    assert!(telegram_payload_is_self_contact("group", 1, None, true, None));
    assert!(!telegram_payload_is_self_contact("group", 1, None, false, own));
    assert!(!telegram_payload_is_self_contact("channel", 6, Some(6), true, own));
}

#[test]
fn inference_context_avoids_live_connector_commands() {
    let options = CandidateContextOptions::inference();

    assert!(!options.uses_connector_commands());
    assert_eq!(
        options.limit_for_id("telegram@alice"),
        INFERENCE_CONTEXT_LIMIT
    );
    assert_eq!(
        options.limit_for_id("google@alice@example.com"),
        INFERENCE_CONTEXT_LIMIT
    );
    assert!(matches!(
        options.payload(&json(r#"{"message": "hello"}"#)),
        Json::Null
    ));
    assert_eq!(
        CandidateContextOptions::full()
            .payload(&json(r#"{"message": "hello"}"#))
            .str_at("message"),
        Some("hello")
    );
}

#[test]
fn telegram_direct_payload_name_prefers_chat_title() {
    let direct = json(
        r#"{"chat_kind": "user", "chat_title": "REAL Yuki", "sender_name": "C", "is_outgoing": true}"#,
    );
    assert_eq!(
        name_from_payload(&direct, Some("C")).as_deref(),
        Some("REAL Yuki")
    );
    let group = json(r#"{"chat_kind": "group", "chat_title": "Team", "sender_name": "Alice"}"#);
    assert_eq!(
        name_from_payload(&group, Some("Alice")).as_deref(),
        Some("Alice")
    );
}

#[test]
fn telegram_peer_cache_skips_malformed_entries() {
    let avatar = "data:image/jpeg;base64,ZmFrZS1hdmF0YXI=";
    let cache = json(&format!(
        r#"{{"version": 1, "peers": [
            {{"kind": "user", "title": "Bad Entry", "username": "bad_entry", "is_bot": "not-a-bool"}},
            {{"kind": "user", "title": "Yu Feng", "username": "yufeng_us", "first_name": "Yu",
              "last_name": "Feng", "avatar": "{avatar}", "is_bot": false}}
        ]}}"#
    ));
    let ids = table(&peer_cache_raw_ids(&cache));
    let metadata = peer_metadata_from_cache(&cache, TelegramPeerMetadataIdMode::Aliases, &ids);

    let names = read_telegram_peer_names(&metadata);
    let avatars = read_telegram_peer_avatars(&metadata);

    assert_eq!(
        names.get("telegram@yufeng_us").map(String::as_str),
        Some("Yu Feng")
    );
    assert_eq!(
        avatars.get("telegram@yufeng_us").map(String::as_str),
        Some(avatar)
    );
    assert!(names.get("telegram@bad_entry").is_none());
    assert!(avatars.get("telegram@bad_entry").is_none());
}

#[test]
fn malformed_peers_are_those_that_cannot_be_decoded() {
    let decoded = |peer: &str| {
        let cache = json(&format!(r#"{{"peers": [{peer}]}}"#));
        let ids = table(&peer_cache_raw_ids(&cache));
        peer_metadata_from_cache(&cache, TelegramPeerMetadataIdMode::Aliases, &ids).len()
    };
    assert_eq!(decoded(r#"{"kind": "user", "numeric_id": 5, "title": "A", "extra": []}"#), 1);
    assert_eq!(decoded(r#"{"kind": "user", "numeric_id": 5, "title": null, "username": "a"}"#), 2);
    assert_eq!(decoded(r#"{"kind": "user", "numeric_id": "5", "title": "A"}"#), 0);
    assert_eq!(decoded(r#"{"kind": "user", "numeric_id": 5.0, "title": "A"}"#), 0);
    assert_eq!(decoded(r#"{"kind": "user", "numeric_id": null, "title": "A"}"#), 0);
    assert_eq!(decoded(r#"{"kind": "user", "numeric_id": 5, "usernames": ["a", 1]}"#), 0);
    assert_eq!(decoded(r#"{"kind": "user", "numeric_id": 5, "usernames": ["b", "@a", "b"]}"#), 3);
    assert_eq!(
        decoded(r#"{"kind": "user", "numeric_id": 5, "last_message_at_ms": 18446744073709551615}"#),
        1
    );
    assert_eq!(decoded(r#"{"kind": "user", "numeric_id": 5, "last_message_at_ms": 1.5}"#), 0);
    assert_eq!(decoded(r#"[5, "user", "A"]"#), 1);
    assert_eq!(decoded(r#"[5, "user", "A", null, [], null, null, null, false, 3, 4]"#), 0);
    assert_eq!(decoded(r#""user""#), 0);
    assert_eq!(decoded(r#"{"kind": "user", "numeric_id": 5}"#), 0);
    assert_eq!(decoded(r#"{"kind": "group", "numeric_id": 5, "title": "A"}"#), 0);
    assert_eq!(decoded(r#"{"kind": "user", "numeric_id": 5, "title": "A", "is_bot": true}"#), 0);
}

#[test]
fn peers_are_known_by_number_before_name() {
    let text = r#"{"peers": [
        {"kind": "user", "numeric_id": 5, "title": "A", "username": "alice", "last_message_at_ms": 7},
        {"kind": "user", "title": "Alice B", "username": "alice", "last_message_at_ms": 3}
    ]}"#;
    let ids = table(&peer_cache_raw_ids(&json(text)));
    let primary = read_telegram_primary_peer_metadata_from_account(Some(text), &ids);
    assert_eq!(primary.len(), 2);
    assert_eq!(
        primary.get("telegram-user-id@5").unwrap().name.as_deref(),
        Some("A")
    );
    let aliases = read_telegram_peer_metadata_from_account(Some(text), &ids);
    let alice = aliases.get("telegram@alice").unwrap();
    assert_eq!(alice.name.as_deref(), Some("Alice B"));
    assert_eq!(alice.last_message_at_ms, Some(7));
    assert!(read_telegram_peer_metadata_from_account(None, &ids).is_empty());
    assert!(read_telegram_peer_metadata_from_account(Some("[]"), &ids).is_empty());
    assert!(read_telegram_peer_metadata_from_account(Some("{"), &ids).is_empty());
    let merged = read_telegram_peer_metadata(vec![
        read_telegram_peer_metadata_from_account(Some(text), &ids),
        known_alice(),
    ]);
    assert_eq!(
        merged.get("telegram-user-id@5").unwrap().name.as_deref(),
        Some("Alice Liddell")
    );
    assert_eq!(
        merged.get("telegram-user-id@5").unwrap().last_message_at_ms,
        Some(9)
    );
}

#[test]
fn history_candidate_name_prefers_telegram_peer_cache_names() {
    let mut peer_names = TextMap::new();
    peer_names.insert("telegram@yufeng_us".to_string(), "Yu Feng".to_string());
    let payload =
        json(r#"{"chat_kind": "group", "sender_username": "yufeng_us", "sender_name": "Yu"}"#);

    let name =
        history_candidate_name("telegram@yufeng_us", Some(&payload), Some("Yu"), &peer_names);

    assert_eq!(name.as_deref(), Some("Yu Feng"));
    assert_eq!(
        history_candidate_name("google@yufeng_us", Some(&payload), Some("Yu"), &peer_names)
            .as_deref(),
        Some("Yu")
    );
    assert_eq!(
        history_candidate_name("google@yufeng_us", None, Some("Yu"), &peer_names),
        None
    );
}

fn yu_run(text: &str, payload: &str) -> HistoryRun {
    HistoryRun {
        trigger_info: json(&format!(
            r#"{{"received_at_ms": 1700000000000, "text": "{text}", "payload": {payload}}}"#
        )),
        contact_ids: vec!["telegram@yufeng_us".to_string()],
        display_name: Some("Yu".to_string()),
        score: 2.0f64.to_bits(),
        context_entropy: 1.5f64.to_bits(),
    }
}

#[test]
fn history_candidate_uses_telegram_peer_cache_avatar() {
    let avatar = "data:image/jpeg;base64,ZmFrZS1hdmF0YXI=";
    let mut peer_names = TextMap::new();
    peer_names.insert("telegram@yufeng_us".to_string(), "Yu Feng".to_string());
    let mut peer_avatars = TextMap::new();
    peer_avatars.insert("telegram@yufeng_us".to_string(), avatar.to_string());
    let run = yu_run(
        "Yu Feng shared the deployment notes",
        r#"{"chat_kind": "user", "chat_username": "yufeng_us", "chat_title": "Yu"}"#,
    );
    let mut by_id = TextMap::new();

    merge_history_candidate_run(
        &run,
        &mut by_id,
        CandidateContextOptions::none(),
        &peer_names,
        &peer_avatars,
    );

    let draft: &CandidateDraft = by_id.get("telegram@yufeng_us").unwrap();
    assert_eq!(draft.candidate.name.as_deref(), Some("Yu Feng"));
    assert_eq!(draft.candidate.avatar.as_deref(), Some(avatar));
    assert!(draft.candidate.context.is_empty());
    assert_eq!(draft.steps, vec![ScoreStep::Add(2.0f64.to_bits())]);
    assert_eq!(draft.candidate.last_message_at_ms, Some(1_700_000_000_000));
}

#[test]
fn runs_without_text_or_of_bots_count_for_nothing() {
    let mut by_id: TextMap<CandidateDraft> = TextMap::new();
    let none = TextMap::new();
    let person = r#"{"chat_kind": "user"}"#;
    let options = CandidateContextOptions::full();
    for run in [
        yu_run("   ", person),
        yu_run("hello", r#"{"message": {"is_bot": true}}"#),
        HistoryRun {
            trigger_info: json(r#"{"text": "hello"}"#),
            ..yu_run("hello", person)
        },
        HistoryRun {
            contact_ids: vec!["telegram@alertbot".to_string()],
            ..yu_run("hello", person)
        },
    ] {
        merge_history_candidate_run(&run, &mut by_id, options, &none, &none);
    }
    assert!(by_id.is_empty());
    let mut low = yu_run("hello", person);
    low.score = 0.001f64.to_bits();
    low.display_name = None;
    merge_history_candidate_run(&low, &mut by_id, options, &none, &none);
    merge_history_candidate_run(&yu_run("hello", person), &mut by_id, options, &none, &none);
    let draft = by_id.get("telegram@yufeng_us").unwrap();
    assert_eq!(draft.candidate.name.as_deref(), Some("Yu"));
    assert_eq!(
        draft.steps,
        vec![
            ScoreStep::Add(SCORE_FLOOR),
            ScoreStep::Add(2.0f64.to_bits())
        ]
    );
    let texts: Vec<&str> = draft
        .candidate
        .context
        .iter()
        .map(|item| item.text.as_str())
        .collect();
    assert_eq!(
        texts,
        vec![
            "[history][dest: unknown][from: contact] hello",
            "[history][dest: Yu][from: contact] hello"
        ]
    );
    assert!(payload_has_bot_flag(&json(r#"{"bot": true}"#)));
    assert!(!payload_has_bot_flag(&json(r#"{"bot": "true", "message": []}"#)));
}

#[test]
fn history_context_text_labels_telegram_group_payloads() {
    let payload = json(
        r#"{
        "chat_kind": "group",
        "chat_id": -100,
        "chat_title": "OKX DEX API Solana Self Host",
        "sender_username": "ricky3211",
        "sender_name": "Ricky",
        "is_outgoing": false
    }"#,
    );

    let text = history_context_text(
        Some(&payload),
        Some("Ricky"),
        "cuLimit will be optimized this week",
    );

    assert_eq!(
        text,
        "[history][dest: OKX DEX API Solana Self Host][from: Ricky] cuLimit will be optimized this week"
    );
    assert_eq!(history_context_text(None, None, "plain"), "plain");
    assert_eq!(history_context_text(Some(&json("{}")), None, "plain"), "plain");
    assert_eq!(
        history_context_text(
            Some(&json(r#"{"chat_kind": "group", "chat_id": -5, "is_outgoing": true}"#)),
            None,
            "x"
        ),
        "[history][dest: chat -5][from: user] x"
    );
}

fn context(text: &str, entropy: f64, time: i128) -> ContactContext {
    ContactContext {
        kind: "note".to_string(),
        text: text.to_string(),
        timestamp_ms: Some(time),
        payload: json(r#"{"x": 1}"#),
        entropy: entropy.to_bits(),
    }
}

#[test]
fn connectors_add_contacts_with_their_context() {
    let mut by_id: TextMap<CandidateDraft> = TextMap::new();
    let contact = |id: &str, name: Option<&str>, items: Vec<ContactContext>| ConnectorContact {
        id: id.to_string(),
        avatar: None,
        name: name.map(ToOwned::to_owned),
        display: Some(ContactDisplay {
            label: "x".to_string(),
            name: None,
            public_username: Some("@carol".to_string()),
            username_label: None,
            unavailable_reason: None,
        }),
        context: items,
        score: 0.0f64.to_bits(),
        last_message_at_ms: Some(4),
    };
    let ids = table(&["google@Carol@example.com".to_string()]);
    let mut items = vec![context("low", 0.5, 1), context("high", 2.0, 1), context("low", 9.0, 2)];
    items.push(context("high too", 2.0, 5));
    items.push(context("  ", 7.0, 5));
    merge_connector_contacts(
        &mut by_id,
        vec![
            contact("google@Carol@example.com", None, items),
            contact("unknown@x", Some("X"), Vec::new()),
        ],
        &ids,
        CandidateContextOptions::inference(),
    );
    assert_eq!(by_id.len(), 1);
    let draft = by_id.get("google@carol@example.com").unwrap();
    assert_eq!(draft.candidate.name.as_deref(), Some("google@carol@example.com"));
    assert_eq!(draft.candidate.public_username.as_deref(), Some("carol"));
    assert_eq!(draft.steps, vec![ScoreStep::Add(SCORE_FLOOR)]);
    let order: Vec<&str> = draft
        .candidate
        .context
        .iter()
        .map(|item| item.text.as_str())
        .collect();
    assert_eq!(order, vec!["high too", "high", "low"]);
    assert!(matches!(draft.candidate.context[0].payload, Json::Null));
}

#[test]
fn collecting_adds_to_what_is_there() {
    let mut by_id: TextMap<CandidateDraft> = TextMap::new();
    collect_telegram_peer_cache_candidates(&mut by_id, known_alice(), Some("telegram-user-id@9"));
    collect_telegram_peer_cache_candidates(&mut by_id, known_alice(), Some("telegram-user-id@5"));
    assert_eq!(by_id.len(), 1);
    let ranked = |name: &str, score: f64, date: i128| Candidate {
        id: "telegram-user-id@5".to_string(),
        name: Some(name.to_string()),
        public_username: None,
        avatar: Some("other".to_string()),
        score: score.to_bits(),
        last_message_at_ms: Some(date),
        context: vec![context("hello there", 1.0, date)],
    };
    merge_ranked_telegram_candidates(
        &mut by_id,
        vec![ranked("Al", 3.0, 50), ranked("Alice P. Liddell", 4.0, 20)],
    );
    let draft = by_id.get("telegram-user-id@5").unwrap();
    assert_eq!(draft.candidate.name.as_deref(), Some("Alice P. Liddell"));
    assert_eq!(draft.candidate.avatar.as_deref(), Some("data:avatar"));
    assert_eq!(draft.candidate.last_message_at_ms, Some(50));
    assert_eq!(draft.candidate.context.len(), 1);
    assert_eq!(
        draft.steps,
        vec![
            ScoreStep::AtLeast(SCORE_FLOOR),
            ScoreStep::Add(3.0f64.to_bits()),
            ScoreStep::Add(4.0f64.to_bits())
        ]
    );
}
