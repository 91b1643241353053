use puffer_contacts::collect::HistoryRun;
use puffer_contacts::context::entropy_counts;
use puffer_contacts::errors::ContactError;
use puffer_contacts::history::name_from_payload;
use puffer_contacts::hydration::{
    hydrate_telegram_contact_picker_peer_cache_if_needed, hydrate_telegram_peer_cache,
    hydrate_telegram_recent_peer_cache_if_needed, recent_cache_repair_target,
    recent_dialog_cache_claims_target_satisfied,
    telegram_contact_picker_ready, telegram_recent_contacts_ready,
    write_recent_dialog_cache_exhausted_marker, write_recent_dialog_cache_marker, PickerAccount,
    TelegramPeerCacheHydrationMode,
};
use puffer_contacts::json::{parse_json, Json};
use puffer_contacts::listing::{
    candidate_is_bot_like, ranked_candidates, recent_candidate_after_cursor,
    score_candidate_after_cursor, ContactCursor,
};
use puffer_contacts::messages::{read_telegram_messages, telegram_raw_contact_ids_on_lines};
use puffer_contacts::models::{
    Candidate, CandidateContextOptions, CandidateDraft, ConnectorContact, ContactContext,
    SavedContact, DEFAULT_LIMIT,
};
use puffer_contacts::peer_metadata::{
    peer_cache_raw_ids, read_telegram_peer_avatars, read_telegram_peer_metadata,
    read_telegram_peer_metadata_from_account, read_telegram_primary_peer_metadata_from_account,
    telegram_session_user_contact_id,
};
use puffer_contacts::recent::{
    collect_recent_telegram_account_candidates, recent_telegram_contacts, RecentAccount,
};
use puffer_contacts::requests::{
    checked_context_ids, connector_context_ids, contact_context_limit, contact_contexts,
    contact_infer_limit, contact_list_limit, handle_contacts_list, handle_contacts_search,
    is_recent_telegram_request, parse_contact_cursor, refresh_searches, with_inferred_candidates,
    ContactListParams, ContactsSnapshot,
};
use puffer_contacts::sampling::{inference_candidates, sample_inference_candidates};
use puffer_contacts::saved::{
    contact_id_for, contact_ids_overlap, contact_ids_to_save, enrich_saved_contact_avatars,
    filtered_saved_contacts, handle_contacts_delete,
    handle_contacts_save, ContactSaveRequest, StoredContact,
};
use puffer_contacts::score::ScoreStep;
use puffer_contacts::sources::{gather_candidates, AccountContacts, ConnectorAnswer};
use puffer_contacts::text_map::TextMap;
use puffer_contacts::window::{elapsed_ms, rank_telegram_messages, DAY_MS};

const NOW_MS: i128 = 1_700_100_000_000;

fn json(text: &str) -> Json {
    parse_json(text).unwrap()
}

fn normalize(raw: &str) -> Option<String> {
    let raw = raw.trim();
    let (prefix, rest) = raw.split_once('@')?;
    let known = ["telegram", "telegram-user-id", "google", "lark"];
    if known.contains(&prefix) && !rest.is_empty() && !rest.contains(' ') {
        Some(raw.to_ascii_lowercase())
    } else {
        None
    }
}

fn normalize_all(raw: &[String]) -> Vec<String> {
    let mut ids = Vec::new();
    for id in raw {
        if let Some(normal) = normalize(id) {
            if !ids.contains(&normal) {
                ids.push(normal);
            }
        }
    }
    ids
}

fn table(raw: &[String]) -> TextMap<String> {
    let mut ids = TextMap::new();
    for id in raw {
        if let Some(normal) = normalize(id) {
            ids.insert(id.clone(), normal);
        }
    }
    ids
}

fn names_table(candidates: &[Candidate]) -> TextMap<String> {
    let names: Vec<String> = candidates
        .iter()
        .filter_map(|candidate| candidate.name.as_deref())
        .map(|name| name.trim().to_string())
        .collect();
    table(&names)
}

fn entropy(text: &str) -> f64 {
    let counts = entropy_counts(text);
    if counts.total == 0 {
        return 0.1;
    }
    let length = counts.total as f64;
    (counts.unique as f64 / length) * length.ln_1p().max(1.0)
}

fn days(timestamp_ms: i128) -> f64 {
    elapsed_ms(NOW_MS, timestamp_ms) as f64 / DAY_MS as f64
}

fn finished(draft: CandidateDraft) -> Candidate {
    let mut candidate = draft.candidate;
    let mut score = f64::from_bits(candidate.score);
    for step in draft.steps {
        score = match step {
            ScoreStep::Add(bits) => score + f64::from_bits(bits),
            ScoreStep::AtLeast(bits) => score.max(f64::from_bits(bits)),
        };
    }
    candidate.score = score.to_bits();
    candidate
}

#[derive(Default)]
struct Account {
    peer_cache: Option<String>,
    diagnostics: Option<String>,
    marker: Option<String>,
    has_session: bool,
    self_user: Option<i64>,
}

impl Account {
    fn cache_ids(&self) -> TextMap<String> {
        match self.peer_cache.as_deref().and_then(parse_json) {
            Some(cache) => table(&peer_cache_raw_ids(&cache)),
            None => TextMap::new(),
        }
    }
}

#[derive(Default)]
struct World {
    account: Option<Account>,
    hydrator: Option<fn(&mut Account, usize)>,
    calls: usize,
    saved: Vec<(String, String, Vec<String>)>,
}

impl World {
    fn with(account: Account) -> World {
        World {
            account: Some(account),
            ..World::default()
        }
    }

    fn hydrate(&mut self) {
        if let (Some(account), Some(hydrator)) = (self.account.as_mut(), self.hydrator) {
            self.calls += 1;
            hydrator(account, self.calls);
        }
    }

    fn avatars(&self) -> TextMap<String> {
        let mut told = Vec::new();
        if let Some(account) = &self.account {
            told.push(read_telegram_peer_metadata_from_account(
                account.peer_cache.as_deref(),
                &account.cache_ids(),
            ));
        }
        read_telegram_peer_avatars(&read_telegram_peer_metadata(told))
    }

    fn contacts(&self) -> Vec<SavedContact> {
        self.saved
            .iter()
            .map(|(id, name, contact_ids)| SavedContact {
                id: id.clone(),
                name: name.clone(),
                description: String::new(),
                avatar: None,
                contact_ids: contact_ids.clone(),
            })
            .collect()
    }

    fn collected(&mut self, options: CandidateContextOptions) -> Vec<Candidate> {
        let needed = self.account.as_ref().is_some_and(|account| {
            hydrate_telegram_peer_cache(
                TelegramPeerCacheHydrationMode::IfNeeded,
                account.has_session,
                account.peer_cache.as_deref(),
            )
        });
        if needed {
            self.hydrate();
        }
        let Some(account) = &self.account else {
            return Vec::new();
        };
        let mut ids = account.cache_ids();
        let own = account.self_user.and_then(|id| {
            let raw = format!("telegram-user-id@{id}");
            telegram_session_user_contact_id(Some(id), &table(&[raw]))
        });
        let mut told = AccountContacts {
            metadata: read_telegram_primary_peer_metadata_from_account(
                account.peer_cache.as_deref(),
                &ids,
            ),
            self_contact_id: own,
            ranked: Vec::new(),
        };
        if let Some(diagnostics) = &account.diagnostics {
            let metadata =
                read_telegram_peer_metadata_from_account(account.peer_cache.as_deref(), &ids);
            let lines: Vec<String> = diagnostics.lines().map(ToOwned::to_owned).collect();
            for raw in telegram_raw_contact_ids_on_lines(&lines) {
                if let Some(normal) = normalize(&raw) {
                    ids.insert(raw, normal);
                }
            }
            let messages = read_telegram_messages(
                &lines,
                options.include_payload,
                account.self_user,
                &metadata,
                &ids,
            );
            let window = rank_telegram_messages(&messages, options);
            told.ranked = window
                .candidates
                .into_iter()
                .map(|item| {
                    let text = |index: usize| messages[window.start + index].text.as_str();
                    let age = |index: usize| days(messages[window.start + index].date_ms);
                    let mut incoming = 0.0;
                    for fact in &item.score.replies {
                        let minutes = fact.delay_ms as f64 / 60_000.0;
                        incoming += entropy(text(fact.message)) * entropy(text(fact.reply))
                            / (age(fact.message) * minutes);
                    }
                    let mut outgoing = 0.0;
                    for index in &item.score.outgoing {
                        outgoing += entropy(text(*index)) / age(*index);
                    }
                    let (first, second) = item.score.halves();
                    let acceleration = (second as f64 / first as f64).clamp(0.25, 4.0);
                    let affinity = item.score.day_count() as f64 * acceleration;
                    let mut candidate = item.candidate;
                    candidate.score = ((incoming + outgoing) * affinity).to_bits();
                    for context in &mut candidate.context {
                        context.entropy = entropy(&context.text).to_bits();
                    }
                    candidate
                })
                .collect();
        }
        gather_candidates(
            vec![told],
            Vec::new(),
            &Vec::new(),
            options,
            &TextMap::new(),
            &TextMap::new(),
        )
        .into_values()
        .into_iter()
        .map(finished)
        .collect()
    }

    fn picker_ready(&mut self, limit: usize) -> bool {
        let needed = self.account.as_ref().and_then(|account| {
            hydrate_telegram_contact_picker_peer_cache_if_needed(
                account.marker.as_deref(),
                account.has_session,
                limit,
            )
        });
        if needed.is_some() {
            self.hydrate();
        }
        let accounts: Vec<PickerAccount> = self
            .account
            .iter()
            .map(|account| PickerAccount {
                has_session: account.has_session,
                marker: account.marker.clone(),
            })
            .collect();
        telegram_contact_picker_ready(&accounts, limit)
    }

    fn recent(&mut self, limit: usize) -> (bool, Vec<Candidate>) {
        if self.account.is_none() {
            return (true, Vec::new());
        }
        let account = self.account.as_ref().unwrap();
        let needed = hydrate_telegram_recent_peer_cache_if_needed(
            account.marker.as_deref(),
            account.has_session,
            limit,
        );
        if needed.is_some() {
            self.hydrate();
        }
        let read = |account: &Account| {
            collect_recent_telegram_account_candidates(
                read_telegram_primary_peer_metadata_from_account(
                    account.peer_cache.as_deref(),
                    &account.cache_ids(),
                ),
            )
        };
        let account = self.account.as_ref().unwrap();
        let ready = telegram_recent_contacts_ready(account.marker.as_deref(), limit);
        let mut found = read(account);
        let marker = account.marker.clone();
        if recent_cache_repair_target(ready, found.len(), marker.as_deref(), limit).is_some() {
            self.hydrate();
            found = read(self.account.as_ref().unwrap());
        }
        let recent = recent_telegram_contacts(vec![RecentAccount {
            ready,
            candidates: found,
        }]);
        (recent.ready, recent.candidates)
    }

    fn list(&mut self, params: &ContactListParams) -> Result<ContactsSnapshot, ContactError> {
        let limit = contact_list_limit(params.limit);
        let (candidates, ready) = if is_recent_telegram_request(params) {
            let (ready, candidates) = self.recent(limit);
            (candidates, ready)
        } else {
            let ready = refresh_searches(params) || self.picker_ready(limit);
            (self.collected(CandidateContextOptions::none()), ready)
        };
        let ids = names_table(&candidates);
        let cursor = parse_contact_cursor(
            params.cursor.as_deref(),
            params.cursor.as_deref().and_then(decode_cursor),
        )?;
        handle_contacts_list(
            params,
            self.contacts(),
            &self.avatars(),
            candidates,
            ready,
            cursor,
            &ids,
        )
    }

    fn search(&mut self, params: &ContactListParams) -> Result<ContactsSnapshot, ContactError> {
        let candidates = self.collected(CandidateContextOptions::none());
        let ids = names_table(&candidates);
        let cursor = parse_contact_cursor(
            params.cursor.as_deref(),
            params.cursor.as_deref().and_then(decode_cursor),
        )?;
        handle_contacts_search(
            params,
            self.contacts(),
            &self.avatars(),
            candidates,
            cursor,
            &ids,
        )
    }

    fn refresh(&mut self, params: &ContactListParams) -> Result<ContactsSnapshot, ContactError> {
        let forced = self.account.as_ref().is_some_and(|account| {
            hydrate_telegram_peer_cache(
                TelegramPeerCacheHydrationMode::Force,
                account.has_session,
                account.peer_cache.as_deref(),
            )
        });
        if forced {
            self.hydrate();
        }
        if refresh_searches(params) {
            self.search(params)
        } else {
            self.list(params)
        }
    }
}

fn cursor_text(cursor: &ContactCursor) -> String {
    match cursor {
        ContactCursor::Score { score_bits, id } => {
            format!(r#"{{"kind":"score","score_bits":{score_bits},"id":"{id}"}}"#)
        }
        ContactCursor::Recent {
            last_message_at_ms,
            id,
        } => match last_message_at_ms {
            Some(time) => format!(r#"{{"kind":"recent","last_message_at_ms":{time},"id":"{id}"}}"#),
            None => format!(r#"{{"kind":"recent","last_message_at_ms":null,"id":"{id}"}}"#),
        },
    }
}

fn decode_cursor(text: &str) -> Option<ContactCursor> {
    let value = parse_json(text)?;
    let id = value.str_at("id")?.to_string();
    match value.str_at("kind")? {
        "score" => Some(ContactCursor::Score {
            score_bits: value.u64_at("score_bits")?,
            id,
        }),
        "recent" => Some(ContactCursor::Recent {
            last_message_at_ms: value.i64_at("last_message_at_ms").map(i128::from),
            id,
        }),
        _ => None,
    }
}

fn limited(limit: usize) -> ContactListParams {
    ContactListParams {
        limit: Some(limit),
        query: None,
        cursor: None,
        connector: None,
        sort: None,
    }
}

fn recent_request(limit: usize) -> ContactListParams {
    ContactListParams {
        connector: Some("telegram".to_string()),
        sort: Some("recent".to_string()),
        ..limited(limit)
    }
}

fn found<'a>(snapshot: &'a ContactsSnapshot, id: &str) -> Option<&'a ConnectorContact> {
    snapshot
        .candidates
        .iter()
        .find(|candidate| candidate.id == id)
}

fn peer(id: i64, title: &str, last_message_at_ms: i64) -> String {
    format!(
        r#"{{"id": "{id}", "numeric_id": {id}, "kind": "user", "title": "{title}",
            "first_name": "{title}", "is_bot": false,
            "last_message_at_ms": {last_message_at_ms}, "updated_at_ms": {last_message_at_ms}}}"#
    )
}

fn cache_of(peers: &[String]) -> Option<String> {
    Some(format!(r#"{{"version": 1, "peers": [{}]}}"#, peers.join(",")))
}

fn numbered_cache(count: i64, label: &str) -> Option<String> {
    let peers: Vec<String> = (1..=count)
        .map(|id| peer(id, &format!("{label} {id}"), 1_700_000_000_000_i64 + id))
        .collect();
    cache_of(&peers)
}

fn marker(seen: usize, target: usize) -> Option<String> {
    Some(write_recent_dialog_cache_marker(seen, target, 7))
}

fn exhausted_marker(seen: usize, target: usize) -> Option<String> {
    Some(write_recent_dialog_cache_exhausted_marker(seen, target, 7))
}

#[test]
fn contacts_list_returns_lightweight_candidate_previews() {
    let diagnostics = [
        r#"{"stage": "emitted", "chat_kind": "user", "chat_id": 5, "chat_username": "alice_smith", "chat_title": "Alice", "message_id": 1, "date_ms": 1700000000000, "text_prefix": "could you review the contacts loading issue"}"#,
        r#"{"stage": "emitted", "chat_kind": "user", "chat_id": 5, "chat_username": "alice_smith", "chat_title": "Alice", "message_id": 2, "date_ms": 1700000060000, "is_outgoing": true, "text_prefix": "yes I will review the contacts loading issue"}"#,
        r#"{"stage": "emitted", "chat_kind": "user", "chat_id": 6, "chat_username": "alertbot", "chat_title": "Alert Bot", "chat_is_bot": true, "message_id": 3, "date_ms": 1700000120000, "text_prefix": "automated alert for deployment"}"#,
    ]
    .join("\n");
    let mut world = World::with(Account {
        diagnostics: Some(diagnostics),
        ..Account::default()
    });

    let result = world.list(&limited(10)).unwrap();
    let candidate = found(&result, "telegram-user-id@5").unwrap();

    assert!(candidate.context.is_empty());
    assert!(candidate.avatar.is_none());
    assert_eq!(candidate.name.as_deref(), Some("Alice (@alice_smith)"));
    assert!(found(&result, "telegram@alertbot").is_none());
    assert!(f64::from_bits(candidate.score) > 0.0);
}

#[test]
fn contacts_list_prefers_telegram_peer_cache_names() {
    let avatar = "data:image/jpeg;base64,ZmFrZS1hdmF0YXI=";
    let diagnostics = [
        r#"{"stage": "emitted", "chat_kind": "user", "chat_id": 37253512, "chat_username": "tohsakar_in", "chat_title": "Rin", "message_id": 1, "date_ms": 1700000000000, "text_prefix": "can you check the snapshot storage"}"#,
        r#"{"stage": "emitted", "chat_kind": "user", "chat_id": 37253512, "chat_username": "tohsakar_in", "chat_title": "Rin", "message_id": 2, "date_ms": 1700000060000, "is_outgoing": true, "text_prefix": "yes I can check the snapshot storage"}"#,
    ]
    .join("\n");
    let cache = format!(
        r#"{{"version": 1, "peers": [{{"id": "37253512", "numeric_id": 37253512, "kind": "user",
            "title": "Rin Tohsaka", "username": "tohsakar_in", "first_name": "Rin",
            "avatar": "{avatar}", "is_bot": false, "updated_at_ms": 1700000000000}}]}}"#
    );
    let mut world = World::with(Account {
        diagnostics: Some(diagnostics),
        peer_cache: Some(cache),
        ..Account::default()
    });

    let result = world.list(&limited(10)).unwrap();
    let candidate = found(&result, "telegram-user-id@37253512").unwrap();
    let display = candidate.display.as_ref().unwrap();

    assert_eq!(candidate.name.as_deref(), Some("Rin Tohsaka"));
    assert_eq!(display.label, "Rin Tohsaka");
    assert_eq!(display.name.as_deref(), Some("Rin Tohsaka"));
    assert_eq!(display.public_username.as_deref(), Some("tohsakar_in"));
    assert_eq!(display.username_label.as_deref(), Some("@tohsakar_in"));
    assert!(!format!("{display:?}").contains("37253512"));
    assert!(candidate.avatar.is_none());

    let search = world
        .search(&ContactListParams {
            query: Some("rin".to_string()),
            ..limited(10)
        })
        .unwrap();
    let search_candidate = found(&search, "telegram-user-id@37253512").unwrap();
    assert!(search_candidate.avatar.is_none());
    assert!(search.ready);

    let request = ContactSaveRequest {
        id: None,
        name: "Rin".to_string(),
        description: "Technical collaborator.".to_string(),
        avatar: None,
    };
    let contact_ids = vec!["telegram-user-id@37253512".to_string()];
    let id = contact_id_for(request.id.as_deref());
    let merged = contact_ids_to_save(
        &Vec::new(),
        &id,
        &request,
        contact_ids.clone(),
        &normalize_all(&contact_ids),
    )
    .unwrap();
    let merged = normalize_all(&merged);
    let normal = normalize_all(&merged);
    let stored = handle_contacts_save(Vec::new(), &id, &request, merged, &normal);
    assert_eq!(stored[0].description, "Technical collaborator.");
    world.saved = stored
        .into_iter()
        .map(|contact| (contact.id, contact.name, contact.contact_ids))
        .collect();
    let snapshot = world.list(&limited(DEFAULT_LIMIT)).unwrap();
    assert_eq!(snapshot.contacts[0].avatar.as_deref(), Some(avatar));
}

#[test]
fn contacts_list_uses_telegram_peer_cache_without_message_diagnostics() {
    let cache = r#"{"version": 1, "peers": [
        {"id": "37253512", "numeric_id": 37253512, "kind": "user", "title": "Rin Tohsaka", "username": "tohsakar_in", "first_name": "Rin", "is_bot": false, "updated_at_ms": 1700000000000},
        {"id": "5229190700", "numeric_id": 5229190700, "kind": "user", "title": "Numeric Direct", "first_name": "Numeric", "is_bot": false, "updated_at_ms": 1700000000000},
        {"id": "9", "numeric_id": 9, "kind": "user", "title": "Build Bot", "username": "buildbot", "is_bot": true, "updated_at_ms": 1700000000000},
        {"id": "-100123", "numeric_id": -100123, "kind": "channel", "title": "Announcements", "username": "announcements", "is_bot": false, "updated_at_ms": 1700000000000}
    ]}"#;
    let mut world = World::with(Account {
        peer_cache: Some(cache.to_string()),
        ..Account::default()
    });

    let result = world.list(&limited(10)).unwrap();

    assert_eq!(
        found(&result, "telegram-user-id@37253512")
            .unwrap()
            .name
            .as_deref(),
        Some("Rin Tohsaka")
    );
    assert_eq!(
        found(&result, "telegram-user-id@5229190700")
            .unwrap()
            .name
            .as_deref(),
        Some("Numeric Direct")
    );
    assert!(found(&result, "telegram@buildbot").is_none());
    assert!(found(&result, "telegram@announcements").is_none());
    assert_eq!(result.candidate_count, 2);
}

#[test]
fn contacts_list_filters_current_telegram_user_from_peer_cache() {
    let cache = r#"{"version": 1, "peers": [
        {"id": "42", "numeric_id": 42, "kind": "user", "title": "Me Myself", "username": "me", "first_name": "Me", "is_bot": false, "updated_at_ms": 1700000000000},
        {"id": "43", "numeric_id": 43, "kind": "user", "title": "Alice", "username": "alice", "first_name": "Alice", "is_bot": false, "updated_at_ms": 1700000000000}
    ]}"#;
    let mut world = World::with(Account {
        peer_cache: Some(cache.to_string()),
        has_session: true,
        self_user: Some(42),
        ..Account::default()
    });

    let result = world.list(&limited(10)).unwrap();

    assert!(found(&result, "telegram-user-id@42").is_none());
    assert_eq!(
        found(&result, "telegram-user-id@43").unwrap().name.as_deref(),
        Some("Alice")
    );
}

#[test]
fn contacts_list_ignores_stale_delivery_cursor_for_recent_readiness() {
    let mut world = World::with(Account {
        peer_cache: numbered_cache(5, "Partial Contact"),
        ..Account::default()
    });

    let cold = world.list(&recent_request(50)).unwrap();
    assert!(!cold.ready);
    assert_eq!(cold.candidate_count, 5);

    let partial_text = write_recent_dialog_cache_marker(18, 50, 7);
    let partial_marker = json(&partial_text);
    assert_eq!(partial_marker.bool_at("ready"), Some(true));
    assert_eq!(partial_marker.u64_at("direct_users_seen"), Some(18));
    assert_eq!(partial_marker.u64_at("target"), Some(50));
    assert_eq!(partial_marker.bool_at("dialogs_exhausted"), Some(false));
    let account = world.account.as_mut().unwrap();
    account.marker = Some(partial_text);
    account.peer_cache = numbered_cache(18, "Partial Contact");

    let partial = world.list(&recent_request(50)).unwrap();
    assert!(!partial.ready);
    assert_eq!(partial.candidate_count, 18);

    let complete_text = write_recent_dialog_cache_marker(50, 50, 7);
    let complete_marker = json(&complete_text);
    assert_eq!(complete_marker.bool_at("ready"), Some(true));
    assert_eq!(complete_marker.u64_at("direct_users_seen"), Some(50));
    assert_eq!(complete_marker.u64_at("target"), Some(50));
    assert_eq!(complete_marker.bool_at("dialogs_exhausted"), Some(false));
    let account = world.account.as_mut().unwrap();
    account.marker = Some(complete_text);
    account.peer_cache = numbered_cache(50, "Complete Contact");

    let complete = world.list(&recent_request(50)).unwrap();
    assert!(complete.ready);
    assert_eq!(complete.candidate_count, 50);
    assert_eq!(complete.candidates[0].id, "telegram-user-id@50");
}

#[test]
fn contacts_list_rehydrates_recent_cache_when_marker_claims_partial_target() {
    let mut world = World::with(Account {
        peer_cache: numbered_cache(18, "Partial Contact"),
        marker: marker(18, 50),
        has_session: true,
        ..Account::default()
    });
    world.hydrator = Some(|account, _| {
        account.marker = marker(50, 50);
        account.peer_cache = numbered_cache(50, "Complete Contact");
    });

    let result = world.list(&recent_request(50)).unwrap();

    assert_eq!(world.calls, 1);
    assert!(result.ready);
    assert_eq!(result.candidate_count, 50);
}

#[test]
fn contacts_list_generic_telegram_reports_not_ready_for_partial_dialog_cache() {
    let mut world = World::with(Account {
        peer_cache: numbered_cache(18, "Partial Contact"),
        marker: marker(18, 120),
        has_session: true,
        ..Account::default()
    });

    let result = world.list(&limited(120)).unwrap();

    assert!(!result.ready);
    assert_eq!(result.candidate_count, 18);
}

#[test]
fn contacts_list_generic_telegram_ignores_stale_account_dir_without_session() {
    let mut world = World::with(Account {
        marker: marker(18, 120),
        ..Account::default()
    });

    let result = world.list(&limited(120)).unwrap();

    assert!(result.ready);
    assert_eq!(result.candidate_count, 0);
}

#[test]
fn contacts_list_generic_telegram_rehydrates_when_marker_claims_partial_page() {
    let mut world = World::with(Account {
        peer_cache: numbered_cache(18, "Partial Contact"),
        marker: marker(18, 120),
        has_session: true,
        ..Account::default()
    });
    world.hydrator = Some(|account, _| {
        account.marker = marker(120, 120);
        account.peer_cache = numbered_cache(120, "Complete Contact");
    });

    let result = world.list(&limited(120)).unwrap();

    assert_eq!(world.calls, 1);
    assert!(result.ready);
    assert_eq!(result.candidate_count, 120);
}

#[test]
fn contacts_list_generic_telegram_progresses_monotonically_until_dialogs_exhausted() {
    let mut world = World::with(Account {
        peer_cache: numbered_cache(18, "Partial Contact"),
        marker: marker(18, 120),
        has_session: true,
        ..Account::default()
    });
    world.hydrator = Some(|account, call| match call {
        1 => {
            account.marker = marker(60, 120);
            account.peer_cache = numbered_cache(60, "Progress Contact");
        }
        2 => {
            account.marker = exhausted_marker(117, 120);
            account.peer_cache = numbered_cache(117, "Complete Contact");
        }
        extra => panic!("unexpected hydrate call {extra}"),
    });

    let first = world.list(&limited(120)).unwrap();
    let second = world.list(&limited(120)).unwrap();

    assert_eq!(world.calls, 2);
    assert!(!first.ready);
    assert_eq!(first.candidate_count, 60);
    assert!(second.ready);
    assert_eq!(second.candidate_count, 117);
}

#[test]
fn contacts_list_generic_telegram_ready_when_dialogs_exhausted_before_limit() {
    let mut world = World::with(Account {
        peer_cache: numbered_cache(117, "Complete Contact"),
        marker: exhausted_marker(117, 120),
        ..Account::default()
    });

    let result = world.list(&limited(120)).unwrap();

    assert!(result.ready);
    assert_eq!(result.candidate_count, 117);
}

#[test]
fn contacts_list_repairs_recent_cache_when_service_user_consumed_target() {
    let mut world = World::with(Account {
        peer_cache: cache_of(&[
            peer(777000, "Telegram", 1_700_000_005_000),
            peer(1, "Alice", 1_700_000_004_000),
            peer(2, "Bob", 1_700_000_003_000),
            peer(3, "Cara", 1_700_000_002_000),
            peer(4, "Dina", 1_700_000_001_000),
        ]),
        marker: Some(r#"{"ready": true, "direct_users_seen": 5, "target": 5}"#.to_string()),
        ..Account::default()
    });
    world.hydrator = Some(|account, _| {
        account.peer_cache = cache_of(&[
            peer(777000, "Telegram", 1_700_000_006_000),
            peer(1, "Alice", 1_700_000_005_000),
            peer(2, "Bob", 1_700_000_004_000),
            peer(3, "Cara", 1_700_000_003_000),
            peer(4, "Dina", 1_700_000_002_000),
            peer(5, "Eli", 1_700_000_001_000),
        ]);
    });

    let result = world.list(&recent_request(5)).unwrap();

    assert_eq!(world.calls, 1);
    assert_eq!(result.candidates.len(), 5);
    assert!(found(&result, "telegram-user-id@777000").is_none());
    assert_eq!(
        found(&result, "telegram-user-id@5").unwrap().name.as_deref(),
        Some("Eli")
    );
}

#[test]
fn contacts_refresh_forces_telegram_peer_cache_hydration_when_cache_is_non_empty() {
    let cache = |id: i64, title: &str, username: &str, updated: i64| {
        Some(format!(
            r#"{{"version": 1, "peers": [{{"id": "{id}", "numeric_id": {id}, "kind": "user",
                "title": "{title}", "username": "{username}", "is_bot": false,
                "updated_at_ms": {updated}}}]}}"#
        ))
    };
    let mut world = World::with(Account {
        peer_cache: cache(1, "Old Contact", "old_contact", 1_700_000_000_000),
        ..Account::default()
    });
    world.hydrator = Some(|account, _| {
        account.peer_cache = Some(
            r#"{"version": 1, "peers": [{"id": "2", "numeric_id": 2, "kind": "user",
                "title": "Fresh Contact", "username": "fresh_contact", "is_bot": false,
                "updated_at_ms": 1700000100000}]}"#
                .to_string(),
        );
    });

    let result = world.refresh(&limited(10)).unwrap();

    assert_eq!(world.calls, 1);
    assert_eq!(
        found(&result, "telegram-user-id@2").unwrap().name.as_deref(),
        Some("Fresh Contact")
    );
    assert!(found(&result, "telegram-user-id@1").is_none());
}

#[test]
fn contacts_list_returns_cursor_pagination_metadata() {
    let mut world = World::with(Account {
        peer_cache: cache_of(&[
            peer(1, "Alice", 1_700_000_001_000),
            peer(2, "Bob", 1_700_000_002_000),
            peer(3, "Cara", 1_700_000_003_000),
        ]),
        ..Account::default()
    });

    let first = world.list(&limited(2)).unwrap();

    assert_eq!(first.limit, 2);
    assert_eq!(first.returned_count, 2);
    assert_eq!(first.candidate_count, 3);
    assert!(first.has_more);
    let cursor = cursor_text(first.next_cursor.as_ref().unwrap());
    assert!(!cursor.is_empty());

    let second = world
        .list(&ContactListParams {
            cursor: Some(cursor),
            ..limited(2)
        })
        .unwrap();

    assert_eq!(second.returned_count, 1);
    assert_eq!(second.candidate_count, 3);
    assert!(!second.has_more);
    assert!(second.next_cursor.is_none());
    assert!(first
        .candidates
        .iter()
        .all(|candidate| candidate.id != second.candidates[0].id));
}

#[test]
fn contacts_cursor_pagination_survives_new_candidate_ahead_of_cursor() {
    let mut world = World::with(Account {
        peer_cache: cache_of(&[
            peer(2, "Bob", 1_700_000_002_000),
            peer(3, "Cara", 1_700_000_003_000),
            peer(4, "Dina", 1_700_000_004_000),
        ]),
        ..Account::default()
    });

    let first = world.list(&limited(2)).unwrap();
    assert_eq!(first.candidates[0].id, "telegram-user-id@2");
    assert_eq!(first.candidates[1].id, "telegram-user-id@3");
    let cursor = cursor_text(first.next_cursor.as_ref().unwrap());

    world.account.as_mut().unwrap().peer_cache = cache_of(&[
        peer(1, "New Contact", 1_700_000_001_000),
        peer(2, "Bob", 1_700_000_002_000),
        peer(3, "Cara", 1_700_000_003_000),
        peer(4, "Dina", 1_700_000_004_000),
    ]);
    let second = world
        .list(&ContactListParams {
            cursor: Some(cursor),
            ..limited(2)
        })
        .unwrap();

    assert_eq!(second.candidates.len(), 1);
    assert_eq!(second.candidates[0].id, "telegram-user-id@4");
}

#[test]
fn contacts_context_returns_marked_telegram_destination_context() {
    let diagnostics = [
        r#"{"stage": "emitted", "chat_kind": "user", "chat_id": 5, "chat_username": "alice", "chat_title": "Alice Smith", "message_id": 1, "date_ms": 1700000000000, "text_prefix": "can you review the contact context"}"#,
        r#"{"stage": "emitted", "chat_kind": "user", "chat_id": 5, "chat_username": "alice", "chat_title": "Alice Smith", "message_id": 2, "date_ms": 1700000060000, "is_outgoing": true, "text_prefix": "yes I can review the contact context"}"#,
    ]
    .join("\n");
    let mut world = World::with(Account {
        diagnostics: Some(diagnostics),
        ..Account::default()
    });
    let wanted = normalize_all(&["telegram-user-id@5".to_string()]);
    checked_context_ids(&wanted).unwrap();
    let limit = contact_context_limit(Some(30));
    let candidates = ranked_candidates(world.collected(CandidateContextOptions::full()));

    assert_eq!(
        connector_context_ids(&candidates, &wanted),
        vec!["telegram-user-id@5".to_string()]
    );
    let context = contact_contexts(candidates, &wanted, Vec::new(), limit);

    assert!(context.iter().any(|item| {
        item.kind == "telegram_recent_message" && item.text.contains("[dest: Alice Smith]")
    }));
    assert!(context
        .iter()
        .any(|item| item.kind == "telegram_interaction_user_reply"));
    assert_eq!(
        context[0]
            .payload
            .get("destination")
            .and_then(|destination| destination.str_at("label")),
        Some("Alice Smith")
    );
    assert_eq!(context.len(), 4);
}

#[test]
fn contacts_context_rejects_empty_or_invalid_contact_ids() {
    for contact_ids in [Vec::new(), vec!["not-a-contact".to_string()]] {
        let error = checked_context_ids(&normalize_all(&contact_ids)).unwrap_err();
        assert!(error
            .message()
            .contains("contact context requires at least one valid contact id"));
    }
}

#[test]
fn history_payload_name_cleans_email_headers() {
    // What the connectors read from a mail header is handed in.
    assert_eq!(
        name_from_payload(
            &json(r#"{"from": "Alice Example <Alice@Example.COM>"}"#),
            Some("Alice Example")
        )
        .as_deref(),
        Some("Alice Example")
    );
    assert_eq!(
        name_from_payload(
            &json(r#"{"from": "alice@example.com", "event": {"title": "Launch Review"}}"#),
            None
        ),
        None
    );
}

fn plain(id: &str, name: Option<&str>, score: f64) -> Candidate {
    Candidate {
        id: id.to_string(),
        name: name.map(ToOwned::to_owned),
        public_username: None,
        avatar: None,
        score: score.to_bits(),
        last_message_at_ms: None,
        context: Vec::new(),
    }
}

fn prefixes_of(candidates: &[Candidate]) -> TextMap<String> {
    let mut prefixes = TextMap::new();
    for candidate in candidates {
        if let Some((prefix, _)) = candidate.id.split_once('@') {
            prefixes.insert(candidate.id.clone(), prefix.to_string());
        }
    }
    prefixes
}

#[test]
fn inference_sampling_keeps_top_contacts_per_prefix() {
    let mut candidates = Vec::new();
    for index in 0..35 {
        candidates.push(plain(
            &format!("telegram@user{index}"),
            None,
            100.0 - index as f64,
        ));
    }
    for index in 0..35 {
        candidates.push(plain(
            &format!("google@user{index}@example.com"),
            None,
            10.0 - index as f64,
        ));
    }

    let sampled = sample_inference_candidates(&candidates, &prefixes_of(&candidates), 30);
    let telegram = sampled
        .iter()
        .filter(|candidate| candidate.id.starts_with("telegram@"))
        .count();
    let google = sampled
        .iter()
        .filter(|candidate| candidate.id.starts_with("google@"))
        .count();

    assert_eq!(telegram, 30);
    assert_eq!(google, 30);
    assert!(sampled
        .iter()
        .any(|candidate| candidate.id == "google@user0@example.com"));
    assert!(!sampled
        .iter()
        .any(|candidate| candidate.id == "google@user30@example.com"));
    assert_eq!(sampled[0].id, "google@user0@example.com");

    let inferred = inference_candidates(
        &candidates,
        &prefixes_of(&candidates),
        &names_table(&candidates),
    );
    assert_eq!(inferred.len(), 2 * DEFAULT_LIMIT);
    assert_eq!(inferred[30].id, "telegram@user0");
}

#[test]
fn inference_sampling_excludes_bot_candidates() {
    let candidates = vec![
        plain("telegram@alertbot", Some("Alert Bot"), 100.0),
        plain(
            "google@support-bot@example.com",
            Some("Support Bot"),
            90.0,
        ),
        plain("telegram@alice", Some("Alice"), 80.0),
    ];

    let sampled = sample_inference_candidates(&candidates, &prefixes_of(&candidates), 30);

    assert_eq!(sampled.len(), 1);
    assert_eq!(sampled[0].id, "telegram@alice");
}

#[test]
fn samples_without_a_prefix_stand_together() {
    let candidates = vec![
        plain("zoe", None, 1.0),
        plain("yan", None, 2.0),
        plain("telegram@a", None, 3.0),
    ];
    let sampled = sample_inference_candidates(&candidates, &prefixes_of(&candidates), 1);
    let ids: Vec<&str> = sampled.iter().map(|candidate| candidate.id.as_str()).collect();
    assert_eq!(ids, vec!["telegram@a", "yan"]);
}

#[test]
fn ranking_is_by_score_and_then_by_id() {
    let ranked = ranked_candidates(vec![
        plain("telegram@c", None, 1.0),
        plain("telegram@b", None, 2.0),
        plain("telegram@helperbot", None, 9.0),
        plain("telegram@a", None, 1.0),
        plain("lark@x", Some("Acme support bot two"), 9.0),
    ]);
    let ids: Vec<&str> = ranked.iter().map(|candidate| candidate.id.as_str()).collect();
    assert_eq!(ids, vec!["telegram@b", "telegram@a", "telegram@c"]);
}

#[test]
fn bots_are_told_by_id_name_and_context() {
    let mut candidate = plain("telegram@alice", Some("Alice"), 1.0);
    assert!(!candidate_is_bot_like(&candidate));
    candidate.context.push(ContactContext {
        kind: "note".to_string(),
        text: "beep".to_string(),
        timestamp_ms: None,
        payload: json(r#"{"message": {"sender_is_bot": true}}"#),
        entropy: 0,
    });
    assert!(candidate_is_bot_like(&candidate));
    assert!(candidate_is_bot_like(&plain("google@ci.bot@x.com", None, 1.0)));
    assert!(!candidate_is_bot_like(&plain("google@robot@x.com", None, 1.0)));
    assert!(candidate_is_bot_like(&plain("lark@x", Some(" Bot "), 1.0)));
}

#[test]
fn pages_of_recent_contacts_follow_each_other() {
    let mut world = World::with(Account {
        peer_cache: cache_of(&[
            peer(1, "Alice", 30),
            peer(2, "Bob", 20),
            peer(3, "Cara", 20),
            peer(4, "Dina", 10),
        ]),
        ..Account::default()
    });
    let mut seen = Vec::new();
    let mut params = recent_request(1);
    params.connector = Some("Telegram".to_string());
    params.sort = Some("RECENT".to_string());
    loop {
        let page = world.list(&params).unwrap();
        assert_eq!(page.candidate_count, 4);
        assert_eq!(page.returned_count, 1);
        seen.extend(page.candidates.iter().map(|candidate| candidate.id.clone()));
        match page.next_cursor {
            Some(cursor) => params.cursor = Some(cursor_text(&cursor)),
            None => break,
        }
    }
    assert_eq!(
        seen,
        vec![
            "telegram-user-id@1",
            "telegram-user-id@2",
            "telegram-user-id@3",
            "telegram-user-id@4"
        ]
    );
}

#[test]
fn cursors_are_refused_where_they_do_not_belong() {
    let mut world = World::default();
    let score = r#"{"kind": "score", "score_bits": 0, "id": "x"}"#;
    let recent = r#"{"kind": "recent", "last_message_at_ms": 5, "id": "x"}"#;
    let with_cursor = |params: ContactListParams, cursor: &str| ContactListParams {
        cursor: Some(cursor.to_string()),
        ..params
    };
    let mismatch = world.list(&with_cursor(limited(5), recent)).unwrap_err();
    assert_eq!(
        mismatch.message(),
        "contact cursor does not match score-sorted contacts"
    );
    let mismatch = world
        .list(&with_cursor(recent_request(5), score))
        .unwrap_err();
    assert_eq!(
        mismatch.message(),
        "contact cursor does not match recent Telegram contacts"
    );
    let mismatch = world.search(&with_cursor(limited(5), recent)).unwrap_err();
    assert_eq!(
        mismatch.message(),
        "contact cursor does not match score-sorted contacts"
    );
    let invalid = world.list(&with_cursor(limited(5), "nonsense")).unwrap_err();
    assert_eq!(invalid.message(), "invalid contact cursor");
    assert!(world.list(&with_cursor(limited(5), "  ")).is_ok());
    assert!(world.list(&with_cursor(limited(5), score)).is_ok());
}

#[test]
fn cursors_stand_behind_what_was_shown() {
    let cursor = ContactCursor::Score {
        score_bits: 2.0f64.to_bits(),
        id: "b".to_string(),
    };
    assert!(score_candidate_after_cursor(&plain("a", None, 1.0), &cursor));
    assert!(!score_candidate_after_cursor(&plain("a", None, 2.0), &cursor));
    assert!(!score_candidate_after_cursor(&plain("b", None, 2.0), &cursor));
    assert!(score_candidate_after_cursor(&plain("c", None, 2.0), &cursor));
    assert!(!score_candidate_after_cursor(&plain("c", None, 3.0), &cursor));
    assert!(score_candidate_after_cursor(&plain("c", None, f64::NAN), &cursor));
    let recent = ContactCursor::Recent {
        last_message_at_ms: Some(5),
        id: "b".to_string(),
    };
    assert!(recent_candidate_after_cursor(&plain("a", None, 1.0), &recent));
    assert!(!score_candidate_after_cursor(&plain("a", None, 1.0), &recent));
    assert!(!recent_candidate_after_cursor(&plain("a", None, 1.0), &cursor));
}

#[test]
fn limits_are_clamped() {
    assert_eq!(contact_list_limit(None), 30);
    assert_eq!(contact_list_limit(Some(0)), 1);
    assert_eq!(contact_list_limit(Some(500)), 120);
    assert_eq!(contact_context_limit(None), 100);
    assert_eq!(contact_context_limit(Some(500)), 120);
    assert_eq!(contact_infer_limit(Some(500)), 30);
    assert_eq!(contact_infer_limit(Some(3)), 3);
}

#[test]
fn searching_matches_ids_and_names_without_regard_to_case() {
    let mut world = World::with(Account {
        peer_cache: cache_of(&[peer(1, "Alice", 30), peer(2, "Bob", 20)]),
        ..Account::default()
    });
    let asked = |query: &str| ContactListParams {
        query: Some(query.to_string()),
        ..limited(10)
    };
    assert_eq!(world.list(&asked(" aLI ")).unwrap().candidate_count, 1);
    assert_eq!(world.search(&asked("ID@2")).unwrap().candidate_count, 1);
    assert_eq!(world.search(&asked("   ")).unwrap().candidate_count, 2);
    assert_eq!(world.refresh(&asked("nobody")).unwrap().candidate_count, 0);
    assert!(world.list(&asked("alice")).unwrap().ready);
}

#[test]
fn contexts_are_the_latest_of_the_wanted_contacts() {
    let context = |text: &str, time: Option<i128>| ContactContext {
        kind: "note".to_string(),
        text: text.to_string(),
        timestamp_ms: time,
        payload: Json::Null,
        entropy: 0,
    };
    let mut google = plain("google@a@x.com", None, 1.0);
    for index in 0..12 {
        google.context.push(context(&format!("mail {index}"), Some(index)));
    }
    let mut other = plain("telegram@b", None, 1.0);
    other.context.push(context("unwanted", Some(99)));
    let wanted = vec!["google@a@x.com".to_string(), "telegram@c".to_string()];
    let told = vec![context("told", Some(20)), context("undated", None)];
    let all = contact_contexts(vec![google.copy(), other.copy()], &wanted, told, 100);
    assert_eq!(all.len(), 12);
    assert_eq!(all[0].text, "told");
    assert_eq!(all[1].text, "mail 9");
    assert_eq!(all[11].text, "undated");
    let few = contact_contexts(vec![google.copy()], &wanted, Vec::new(), 3);
    let texts: Vec<&str> = few.iter().map(|item| item.text.as_str()).collect();
    assert_eq!(texts, vec!["mail 2", "mail 1", "mail 0"]);
    let asked = vec!["telegram@b".to_string(), "google@a@x.com".to_string()];
    assert_eq!(
        connector_context_ids(&vec![google.copy(), other.copy()], &asked),
        vec!["google@a@x.com".to_string()]
    );
}

fn stored(id: &str, name: &str, contact_ids: &[&str]) -> StoredContact {
    let contact_ids: Vec<String> = contact_ids.iter().map(|id| id.to_string()).collect();
    StoredContact {
        normal_ids: normalize_all(&contact_ids),
        contact: SavedContact {
            id: id.to_string(),
            name: name.to_string(),
            description: String::new(),
            avatar: None,
            contact_ids,
        },
    }
}

#[test]
fn saving_merges_contacts_that_share_an_id() {
    let store = || {
        vec![
            stored("1", "zoe", &["telegram@Zoe", "google@zoe@x.com"]),
            stored("2", "Bob", &["telegram@bob"]),
            stored("3", "old", &["lark@old"]),
        ]
    };
    let request = ContactSaveRequest {
        id: Some(" 3 ".to_string()),
        name: " Anna ".to_string(),
        description: " friend ".to_string(),
        avatar: Some("  ".to_string()),
    };
    let id = contact_id_for(request.id.as_deref());
    assert_eq!(id, "3");
    let given = normalize_all(&["telegram@zoe".to_string()]);
    let merged =
        contact_ids_to_save(&store(), &id, &request, given.clone(), &given).unwrap();
    assert_eq!(merged, vec!["telegram@zoe", "telegram@Zoe", "google@zoe@x.com"]);
    let merged = normalize_all(&merged);
    let normal = merged.clone();
    let saved = handle_contacts_save(store(), &id, &request, merged, &normal);
    assert_eq!(saved.len(), 2);
    assert_eq!(saved[0].name, "Anna");
    assert_eq!(saved[0].id, "3");
    assert_eq!(saved[0].description, "friend");
    assert_eq!(saved[0].avatar, None);
    assert_eq!(saved[0].contact_ids, vec!["telegram@zoe", "google@zoe@x.com"]);
    assert_eq!(saved[1].name, "Bob");
}

#[test]
fn saved_contacts_share_no_ids() {
    let store = || {
        vec![
            stored("1", "Zoe", &["telegram@Zoe", "google@zoe@x.com"]),
            stored("2", "Bob", &["telegram@bob", "lark@bob"]),
            stored("3", "Cleo", &["lark@cleo"]),
            stored("4", "Old", &["lark@old"]),
        ]
    };
    let request = ContactSaveRequest {
        id: Some("4".to_string()),
        name: "both".to_string(),
        description: String::new(),
        avatar: None,
    };
    let given = normalize_all(&[
        "LARK@bob".to_string(),
        "lark@bob".to_string(),
        "google@zoe@x.com".to_string(),
    ]);
    let merged = contact_ids_to_save(&store(), "4", &request, given.clone(), &given).unwrap();
    let merged = normalize_all(&merged);
    let saved = handle_contacts_save(store(), "4", &request, merged.clone(), &merged);
    let names: Vec<&str> = saved.iter().map(|contact| contact.name.as_str()).collect();
    assert_eq!(names, vec!["both", "Cleo"]);
    assert_eq!(
        saved[0].contact_ids,
        vec!["lark@bob", "google@zoe@x.com", "telegram@zoe", "telegram@bob"]
    );
    assert_eq!(saved[1].contact_ids, vec!["lark@cleo"]);
    assert!(!contact_ids_overlap(&saved[0].contact_ids, &saved[1].contact_ids));
}

#[test]
fn contacts_without_a_name_or_an_id_are_refused() {
    let mut request = ContactSaveRequest {
        id: None,
        name: "   ".to_string(),
        description: String::new(),
        avatar: None,
    };
    let ids = vec!["telegram@a".to_string()];
    let error =
        contact_ids_to_save(&Vec::new(), "1", &request, ids.clone(), &ids).unwrap_err();
    assert_eq!(error.message(), "contact name must not be empty");
    request.name = "A".to_string();
    let error =
        contact_ids_to_save(&Vec::new(), "1", &request, Vec::new(), &Vec::new()).unwrap_err();
    assert_eq!(
        error.message(),
        "contact must contain at least one valid contact id"
    );
}

#[test]
fn fresh_ids_differ() {
    let first = contact_id_for(None);
    let second = contact_id_for(Some("  "));
    assert_ne!(first, second);
    assert_eq!(first.len(), 36);
    assert_eq!(first.matches('-').count(), 4);
    assert!(first
        .chars()
        .all(|ch| ch == '-' || ch.is_ascii_digit() || ('a'..='f').contains(&ch)));
    assert_eq!(first.as_bytes()[14], b'4');
}

#[test]
fn deleting_takes_the_contact_out() {
    let contacts = || {
        vec![
            stored("1", "A", &["telegram@a"]).contact,
            stored("2", "B", &["telegram@b"]).contact,
        ]
    };
    let left = handle_contacts_delete(contacts(), " 1 ").unwrap();
    assert_eq!(left.len(), 1);
    assert_eq!(left[0].id, "2");
    assert_eq!(
        handle_contacts_delete(contacts(), "  ").unwrap_err().message(),
        "contact id must not be empty"
    );
    assert_eq!(
        handle_contacts_delete(contacts(), "9").unwrap_err().message(),
        "contact `9` not found"
    );
}

#[test]
fn saved_contacts_are_filtered_by_name_description_and_id() {
    let contacts = || {
        let mut anna = stored("1", "Anna", &["telegram@x"]).contact;
        anna.description = "Plays CHESS".to_string();
        vec![anna, stored("2", "Bob", &["google@Bob@x.com"]).contact]
    };
    let ids = |query: Option<&str>| -> Vec<String> {
        filtered_saved_contacts(contacts(), query)
            .into_iter()
            .map(|contact| contact.id)
            .collect()
    };
    assert_eq!(ids(None), vec!["1", "2"]);
    assert_eq!(ids(Some("chess")), vec!["1"]);
    assert_eq!(ids(Some("ANNA")), vec!["1"]);
    assert_eq!(ids(Some("bob@X")), vec!["2"]);
    assert!(ids(Some("nobody")).is_empty());
}

#[test]
fn inferred_candidates_stand_in_the_snapshot() {
    let mut world = World::with(Account {
        peer_cache: cache_of(&[peer(1, "Alice", 30)]),
        ..Account::default()
    });
    let listed = world.list(&limited(DEFAULT_LIMIT)).unwrap();
    let candidates = vec![plain("telegram@z", Some("Zed Z"), 1.0)];
    let ids = names_table(&candidates);
    let inferred = inference_candidates(&candidates, &prefixes_of(&candidates), &ids);
    let snapshot = with_inferred_candidates(listed, inferred);
    assert_eq!(snapshot.candidates.len(), 1);
    assert_eq!(snapshot.candidates[0].id, "telegram@z");
    assert_eq!(snapshot.candidate_count, 1);
    assert_eq!(snapshot.returned_count, 1);
    assert_eq!(
        snapshot.candidates[0]
            .display
            .as_ref()
            .unwrap()
            .username_label
            .as_deref(),
        Some("@z")
    );
}

#[test]
fn displays_hide_ids() {
    let listed = |name: Option<&str>, id: &str| {
        let candidate = plain(id, name, 1.0);
        let ids = names_table(&[candidate.copy()]);
        candidate.into_contact(&ids).display
    };
    let unnamed = listed(None, "telegram-user-id@5").unwrap();
    assert_eq!(unnamed.label, "Telegram contact");
    assert_eq!(
        unnamed.unavailable_reason.as_deref(),
        Some("display_identity_unavailable")
    );
    let own_id = listed(Some("telegram-user-id@5"), "telegram-user-id@5").unwrap();
    assert_eq!(own_id.name, None);
    let other_id = listed(Some(" google@x@y.z "), "telegram-user-id@5").unwrap();
    assert_eq!(other_id.name, None);
    let named = listed(Some("Alice"), "telegram-user-id@5").unwrap();
    assert_eq!(named.label, "Alice");
    assert_eq!(named.unavailable_reason.as_deref(), Some("no_public_username"));
    let handle = listed(None, "telegram@alice").unwrap();
    assert_eq!(handle.label, "@alice");
    assert_eq!(handle.unavailable_reason, None);
    assert!(listed(Some("Alice"), "google@a@x.com").is_none());
}

#[test]
fn refusals_say_what_is_wrong() {
    let said: Vec<String> = [
        ContactError::InvalidListParams,
        ContactError::InvalidSearchParams,
        ContactError::InvalidRefreshParams,
        ContactError::InvalidSaveParams,
        ContactError::InvalidDeleteParams,
        ContactError::InvalidContextParams,
        ContactError::InvalidInferParams,
        ContactError::NotFound("x".to_string()),
    ]
    .iter()
    .map(ContactError::message)
    .collect();
    assert_eq!(
        said,
        vec![
            "invalid contact list params",
            "invalid contact search params",
            "invalid contact refresh params",
            "invalid contact save params",
            "invalid contact delete params",
            "invalid contact context params",
            "invalid contact infer params",
            "contact `x` not found",
        ]
    );
}

#[test]
fn markers_are_read_back_as_they_were_written() {
    let text = write_recent_dialog_cache_marker(18, 50, -7);
    assert_eq!(
        text,
        "{\n  \"dialogs_exhausted\": false,\n  \"direct_users_seen\": 18,\n  \"hydrated_at_ms\": -7,\n  \"ready\": true,\n  \"target\": 50\n}"
    );
    let claims = |text: &str, target: usize| {
        recent_dialog_cache_claims_target_satisfied(Some(text), target)
    };
    assert!(claims(&text, 18));
    assert!(!claims(&text, 19));
    let exhausted = write_recent_dialog_cache_exhausted_marker(18, 50, 7);
    assert!(claims(&exhausted, 50));
    assert!(!claims(&exhausted, 51));
    assert!(!claims("{", 5));
    assert!(!claims(r#"{"ready": "true", "target": 50, "direct_users_seen": 50}"#, 5));
    assert!(!claims(r#"{"ready": true, "target": -1, "direct_users_seen": 50}"#, 5));
    assert!(!recent_dialog_cache_claims_target_satisfied(None, 5));
}

#[test]
fn deleting_a_saved_contact_leaves_the_others() {
    let store = || vec![stored("1", "zoe", &["telegram@zoe"]), stored("2", "Bob", &["lark@bob"])];
    let request = ContactSaveRequest {
        id: None,
        name: "Anna".to_string(),
        description: String::new(),
        avatar: Some(" data:x ".to_string()),
    };
    let ids = vec!["telegram@anna".to_string()];
    let saved = handle_contacts_save(store(), "9", &request, ids.clone(), &ids);
    assert_eq!(saved[0].avatar.as_deref(), Some("data:x"));
    let left = handle_contacts_delete(saved, "9").unwrap();
    let names: Vec<&str> = left.iter().map(|contact| contact.name.as_str()).collect();
    assert_eq!(names, vec!["Bob", "zoe"]);
}

#[test]
fn known_avatars_fill_gaps_only() {
    let mut avatars = TextMap::new();
    avatars.insert("telegram@b".to_string(), "second".to_string());
    let mut own = stored("1", "A", &["telegram@b"]).contact;
    own.avatar = Some("own".to_string());
    let mut blank = stored("2", "B", &["telegram@a", "telegram@b"]).contact;
    blank.avatar = Some("  ".to_string());
    let shown = enrich_saved_contact_avatars(vec![own, blank], &avatars);
    assert_eq!(shown[0].avatar.as_deref(), Some("own"));
    assert_eq!(shown[1].avatar.as_deref(), Some("second"));
    let mut blank = stored("2", "B", &["telegram@a"]).contact;
    blank.avatar = Some("  ".to_string());
    let kept = enrich_saved_contact_avatars(vec![blank], &TextMap::new());
    assert_eq!(kept[0].avatar.as_deref(), Some("  "));
}

#[test]
fn contacts_that_share_an_id_overlap() {
    let list = |ids: &[&str]| -> Vec<String> { ids.iter().map(|id| id.to_string()).collect() };
    assert!(contact_ids_overlap(&list(&["a", "b"]), &list(&["c", "b"])));
    assert!(!contact_ids_overlap(&list(&["a"]), &list(&["c"])));
    assert!(!contact_ids_overlap(&list(&[]), &list(&[])));
}

fn told_contact(id: &str, name: &str) -> ConnectorContact {
    ConnectorContact {
        id: id.to_string(),
        avatar: None,
        name: Some(name.to_string()),
        display: None,
        context: Vec::new(),
        score: 3.0f64.to_bits(),
        last_message_at_ms: None,
    }
}

#[test]
fn candidates_are_gathered_from_all_sources() {
    let gather = |options: CandidateContextOptions| {
        let cache = cache_of(&[peer(1, "Alice", 30), peer(9, "Me", 40)]);
        let account = Account {
            peer_cache: cache,
            ..Account::default()
        };
        let accounts = vec![AccountContacts {
            metadata: read_telegram_primary_peer_metadata_from_account(
                account.peer_cache.as_deref(),
                &account.cache_ids(),
            ),
            self_contact_id: Some("telegram-user-id@9".to_string()),
            ranked: vec![plain("telegram-user-id@1", Some("Al"), 5.0)],
        }];
        let answers = vec![ConnectorAnswer {
            contacts: vec![told_contact("google@bo@x.com", "Bo"), told_contact("zz", "Zed")],
            ids: table(&["google@bo@x.com".to_string()]),
        }];
        let runs = vec![HistoryRun {
            trigger_info: json(r#"{"text": "hi", "payload": {}}"#),
            contact_ids: vec!["lark@cy".to_string(), "telegram-user-id@1".to_string()],
            display_name: Some("Cy".to_string()),
            score: 2.0f64.to_bits(),
            context_entropy: 0.1f64.to_bits(),
        }];
        let none = TextMap::new();
        let mut found: Vec<Candidate> =
            gather_candidates(accounts, answers, &runs, options, &none, &none)
                .into_values()
                .into_iter()
                .map(finished)
                .collect();
        found.sort_by(|left, right| left.id.cmp(&right.id));
        found
    };
    let found = gather(CandidateContextOptions::full());
    let ids: Vec<&str> = found.iter().map(|candidate| candidate.id.as_str()).collect();
    assert_eq!(ids, vec!["google@bo@x.com", "lark@cy", "telegram-user-id@1"]);
    assert_eq!(found[2].name.as_deref(), Some("Alice"));
    assert_eq!(f64::from_bits(found[2].score), 0.01 + 5.0 + 2.0);
    assert_eq!(found[1].name.as_deref(), Some("Cy"));
    assert_eq!(f64::from_bits(found[0].score), 3.0);
    let few = gather(CandidateContextOptions::inference());
    assert_eq!(few.len(), 2);
}

#[test]
fn recent_contacts_of_accounts_are_merged() {
    let account = |ready: bool, peers: &[String]| {
        let account = Account {
            peer_cache: cache_of(peers),
            ..Account::default()
        };
        RecentAccount {
            ready,
            candidates: collect_recent_telegram_account_candidates(
                read_telegram_primary_peer_metadata_from_account(
                    account.peer_cache.as_deref(),
                    &account.cache_ids(),
                ),
            ),
        }
    };
    let both = recent_telegram_contacts(vec![
        account(true, &[peer(1, "Alice", 30), peer(2, "Bob", 20)]),
        account(false, &[peer(2, "Bob Builder", 40)]),
    ]);
    assert!(!both.ready);
    let names: Vec<Option<&str>> = both
        .candidates
        .iter()
        .map(|candidate| candidate.name.as_deref())
        .collect();
    assert_eq!(names, vec![Some("Bob Builder"), Some("Alice")]);
    assert_eq!(both.candidates[0].last_message_at_ms, Some(40));
    assert!(recent_telegram_contacts(Vec::new()).ready);
}
