use puffer_contacts::hydration::{
    avatar_data_uri, hydrate_chat_avatar, hydrate_chat_avatars_deferred, hydrate_contact_book,
    observe_saved_contact, saved_contact_usernames, saved_phone_contact_names,
    start_recent_dialogs, take_dialog, wait_for_telegram_peer_cache_hydrate_result,
    wants_more_dialogs, DialogEvent, FetchedAvatar, HydrateOutcome, SavedPhoneContact,
};
use puffer_contacts::names::{
    joined_name, merge_optional_fill, merge_optional_name, merged_usernames, nonempty, phone_key,
    telegram_username_from_contact_id,
};
use puffer_contacts::peer_cache::{
    is_recent_dialog_target_user, PeerKind, PeerProfile, TelegramPeerCache, TelegramPeerRecord,
    CACHE_VERSION,
};
use std::sync::mpsc::{self, RecvTimeoutError};
use std::time::Duration;

fn profile(kind: PeerKind, id: i64) -> PeerProfile {
    PeerProfile {
        kind,
        id,
        name: String::new(),
        first_name: String::new(),
        last_name: None,
        username: None,
        usernames: Vec::new(),
        phone: None,
        bot: false,
    }
}

fn user(id: i64, first: &str, last: &str) -> PeerProfile {
    let mut user = profile(PeerKind::User, id);
    user.first_name = first.to_string();
    user.last_name = Some(last.to_string());
    user
}

#[test]
fn telegram_peer_cache_hydrate_wait_times_out() {
    let (_sender, receiver) = mpsc::channel::<Result<(), String>>();
    let timeout = Duration::from_millis(0);
    let outcome = match receiver.recv_timeout(timeout) {
        Ok(Ok(())) => HydrateOutcome::Done,
        Ok(Err(message)) => HydrateOutcome::Failed(message),
        Err(RecvTimeoutError::Timeout) => HydrateOutcome::TimedOut,
        Err(RecvTimeoutError::Disconnected) => HydrateOutcome::Ended,
    };

    let error = wait_for_telegram_peer_cache_hydrate_result(
        outcome,
        &format!("{}", timeout.as_secs_f32()),
    )
    .unwrap_err()
    .message();

    assert!(
        error.contains("timed out"),
        "unexpected timeout error: {error}"
    );
    assert_eq!(error, "Telegram contact hydrate timed out after 0s");
}

#[test]
fn hydrate_outcomes_have_their_own_words() {
    assert!(wait_for_telegram_peer_cache_hydrate_result(HydrateOutcome::Done, "15").is_ok());
    assert_eq!(
        wait_for_telegram_peer_cache_hydrate_result(HydrateOutcome::Ended, "15")
            .unwrap_err()
            .message(),
        "Telegram contact hydrate thread ended without a result"
    );
    assert_eq!(
        wait_for_telegram_peer_cache_hydrate_result(
            HydrateOutcome::Failed("connect".to_string()),
            "15"
        )
        .unwrap_err()
        .message(),
        "connect"
    );
}

#[test]
fn joined_name_skips_blank_parts() {
    assert_eq!(
        joined_name("Rin", Some("Tohsaka")).as_deref(),
        Some("Rin Tohsaka")
    );
    assert_eq!(joined_name("Rin", Some("")).as_deref(), Some("Rin"));
    assert_eq!(joined_name("", None), None);
}

#[test]
fn merge_optional_name_prefers_more_complete_value() {
    let mut existing = Some("Rin".to_string());

    merge_optional_name(&mut existing, Some("Rin Tohsaka".to_string()));

    assert_eq!(existing.as_deref(), Some("Rin Tohsaka"));
}

#[test]
fn merging_a_name_keeps_the_fuller_one() {
    let mut existing = Some("Rin Tohsaka".to_string());
    merge_optional_name(&mut existing, Some("Rin".to_string()));
    assert_eq!(existing.as_deref(), Some("Rin Tohsaka"));
    merge_optional_name(&mut existing, Some("Rin Tohsakaa".to_string()));
    assert_eq!(existing.as_deref(), Some("Rin Tohsakaa"));
    merge_optional_name(&mut existing, None);
    assert_eq!(existing.as_deref(), Some("Rin Tohsakaa"));

    let mut blank = Some("  ".to_string());
    merge_optional_fill(&mut blank, Some("rin".to_string()));
    merge_optional_fill(&mut blank, Some("other".to_string()));
    assert_eq!(blank.as_deref(), Some("rin"));
}

#[test]
fn lookup_returns_cached_title_and_username() {
    let cache = TelegramPeerCache {
        version: CACHE_VERSION,
        peers: vec![TelegramPeerRecord {
            id: "6156741935".to_string(),
            numeric_id: 6156741935,
            kind: "user".to_string(),
            title: Some("smith john".to_string()),
            username: None,
            usernames: vec!["johnsmith1847".to_string()],
            first_name: None,
            last_name: None,
            phone: None,
            avatar: None,
            is_bot: false,
            source: Some("test".to_string()),
            updated_at_ms: 1,
            last_message_at_ms: None,
        }],
    };

    assert_eq!(
        cache.title_for("user", 6156741935).as_deref(),
        Some("smith john")
    );
    assert_eq!(
        cache.username_for("user", 6156741935).as_deref(),
        Some("johnsmith1847")
    );
    assert_eq!(cache.title_for("group", 6156741935), None);
}

#[test]
fn phone_key_keeps_only_digits() {
    assert_eq!(phone_key("+1 (555) 0100"), "15550100");
}

#[test]
fn telegram_username_from_contact_id_accepts_public_handles() {
    assert_eq!(
        telegram_username_from_contact_id("telegram@Alice_42").as_deref(),
        Some("alice_42")
    );
    assert_eq!(telegram_username_from_contact_id("telegram@12345"), None);
    assert_eq!(telegram_username_from_contact_id("telegram@bad-name"), None);
    assert_eq!(telegram_username_from_contact_id("google@alice"), None);
}

#[test]
fn public_handles_have_five_to_thirty_two_characters() {
    assert_eq!(telegram_username_from_contact_id("telegram@abcd"), None);
    assert_eq!(
        telegram_username_from_contact_id(" telegram@ @@abcde ").as_deref(),
        Some("abcde")
    );
    let longest = "a".repeat(32);
    assert_eq!(
        telegram_username_from_contact_id(&format!("telegram@{longest}")),
        Some(longest.clone())
    );
    assert_eq!(
        telegram_username_from_contact_id(&format!("telegram@{longest}a")),
        None
    );
}

#[test]
fn recent_dialog_target_user_excludes_telegram_service_account() {
    assert!(is_recent_dialog_target_user(123, false, true));
    assert!(!is_recent_dialog_target_user(777000, false, true));
    assert!(!is_recent_dialog_target_user(123, true, true));
    assert!(!is_recent_dialog_target_user(123, false, false));
}

#[test]
fn saved_contact_usernames_reads_workspace_contacts() {
    let contacts = vec![
        vec![
            "telegram@Alice_42".to_string(),
            "google@alice@example.com".to_string(),
        ],
        vec![
            "telegram@bob_user".to_string(),
            "telegram@12345".to_string(),
            "telegram@bad-name".to_string(),
        ],
    ];

    assert_eq!(
        saved_contact_usernames(&contacts),
        vec!["alice_42".to_string(), "bob_user".to_string()]
    );
}

#[test]
fn usernames_are_united_sorted_and_trimmed() {
    let left = vec!["zed".to_string(), " amy ".to_string(), "".to_string()];
    let right = vec!["amy".to_string(), "bob".to_string()];
    assert_eq!(merged_usernames(&left, &right), vec!["amy", "bob", "zed"]);
    assert_eq!(nonempty("  x "), Some("x".to_string()));
    assert_eq!(nonempty(" \t"), None);
}

#[test]
fn observed_peers_are_sorted_and_merged() {
    let mut cache = TelegramPeerCache::empty();
    let mut group = profile(PeerKind::Group, 7);
    group.name = " Team ".to_string();
    cache.observe_chat(&user(30, "Rin", ""), "dialog", 1);
    cache.observe_chat(&group, "dialog", 2);
    cache.observe_chat_with_last_message_at_ms(&user(4, "Yu", "Feng"), "dialog", Some(50), 3);
    let order: Vec<(String, i64)> = cache
        .peers
        .iter()
        .map(|record| (record.kind.clone(), record.numeric_id))
        .collect();
    assert_eq!(
        order,
        vec![
            ("group".to_string(), 7),
            ("user".to_string(), 4),
            ("user".to_string(), 30)
        ]
    );
    assert_eq!(cache.title_for("group", 7).as_deref(), Some("Team"));

    // A second observation keeps the fuller name and the later message, and adds what is new.
    let mut again = user(4, "Yu", "");
    again.username = Some("yufeng_us".to_string());
    cache.observe_chat_with_last_message_at_ms(&again, "dialog", Some(20), 9);
    assert_eq!(cache.peers.len(), 3);
    let record = cache.find("user", 4).unwrap();
    assert_eq!(record.title.as_deref(), Some("Yu Feng"));
    assert_eq!(record.username.as_deref(), Some("yufeng_us"));
    assert_eq!(record.last_message_at_ms, Some(50));
    assert_eq!(record.updated_at_ms, 9);
}

#[test]
fn observing_a_known_peer_again_changes_nothing() {
    let mut cache = TelegramPeerCache::empty();
    let mut peer = user(4, "Yu", "Feng");
    peer.usernames = vec!["b_name".to_string(), "a_name".to_string()];
    cache.observe_chat(&peer, "dialog", 3);
    assert_eq!(cache.peers[0].usernames, vec!["b_name", "a_name"]);
    cache.observe_chat(&peer, "dialog", 3);
    assert_eq!(cache.peers[0].usernames, vec!["a_name", "b_name"]);
    let before = cache.copy();
    cache.observe_chat(&peer, "dialog", 3);
    assert!(!cache.save_if_changed(&before));
    cache.observe_chat(&peer, "dialog", 4);
    assert!(cache.save_if_changed(&before));
}

#[test]
fn bots_are_told_by_flag_and_by_username() {
    let mut cache = TelegramPeerCache::empty();
    let mut flagged = user(1, "Helper", "");
    flagged.bot = true;
    let mut named = user(2, "Alert", "");
    named.username = Some("AlertBot".to_string());
    cache.observe_chat(&flagged, "dialog", 1);
    cache.observe_chat(&named, "dialog", 1);
    cache.observe_chat(&user(3, "Rin", ""), "dialog", 1);
    let bots: Vec<bool> = cache.peers.iter().map(|record| record.is_bot).collect();
    assert_eq!(bots, vec![true, true, false]);
}

#[test]
fn a_cache_is_loaded_from_its_text() {
    assert_eq!(TelegramPeerCache::load(None, None).unwrap().peers.len(), 0);
    assert_eq!(
        TelegramPeerCache::load(Some("  \n"), None).unwrap().version,
        CACHE_VERSION
    );
    assert!(TelegramPeerCache::load(Some("{"), None).is_none());
    let mut decoded = TelegramPeerCache::empty();
    decoded.version = 0;
    decoded.observe_chat(&user(1, "Rin", ""), "dialog", 1);
    let loaded = TelegramPeerCache::load(Some("{}"), Some(decoded)).unwrap();
    assert_eq!(loaded.version, CACHE_VERSION);
    assert_eq!(loaded.peers.len(), 1);
}

#[test]
fn the_contact_book_uses_saved_names() {
    let names = saved_phone_contact_names(&vec![
        SavedPhoneContact {
            first_name: "Old".to_string(),
            last_name: "".to_string(),
            phone: "1 555".to_string(),
        },
        SavedPhoneContact {
            first_name: "Mum".to_string(),
            last_name: "Mobile".to_string(),
            phone: "+1555".to_string(),
        },
        SavedPhoneContact {
            first_name: " ".to_string(),
            last_name: "".to_string(),
            phone: "777".to_string(),
        },
    ]);
    assert_eq!(names.get("1555").map(String::as_str), Some("Mum Mobile"));
    assert!(names.get("777").is_none());
    let mut known = user(9, "Anna", "Berg");
    known.phone = Some("(1)555".to_string());
    let mut cache = TelegramPeerCache::empty();
    hydrate_contact_book(&mut cache, &vec![known, user(8, "Bo", "")], &names, 5);
    assert_eq!(cache.title_for("user", 9).as_deref(), Some("Mum Mobile"));
    assert_eq!(cache.title_for("user", 8).as_deref(), Some("Bo"));
    let record = cache.find("user", 9).unwrap();
    assert_eq!(record.first_name.as_deref(), Some("Anna"));
    assert_eq!(record.source.as_deref(), Some("contacts"));
}

#[test]
fn dialogs_are_looked_at_until_the_target_is_reached() {
    let mut cache = TelegramPeerCache::empty();
    let mut progress = start_recent_dialogs(2, 1);
    assert_eq!(progress.max_dialogs, 2);
    assert_eq!(start_recent_dialogs(0, 0).target_direct_users, 1);
    let mut progress3 = start_recent_dialogs(2, 500);
    for (peer, time) in [
        (user(777000, "Telegram", ""), Some(9)),
        (user(1, "A", ""), None),
        (user(2, "B", ""), Some(8)),
        (profile(PeerKind::Group, 3), Some(7)),
    ] {
        assert!(take_dialog(
            &mut cache,
            &mut progress3,
            DialogEvent::Dialog(peer, time),
            1
        ));
    }
    assert!(!take_dialog(
        &mut cache,
        &mut progress3,
        DialogEvent::Dialog(user(4, "D", ""), Some(6)),
        1
    ));
    assert_eq!(progress3.direct_users_seen, 2);
    assert_eq!(progress3.dialogs_seen, 5);
    assert!(!progress3.dialogs_exhausted);
    assert!(!wants_more_dialogs(&progress3));
    assert_eq!(cache.peers.len(), 5);

    assert!(!take_dialog(
        &mut cache,
        &mut progress,
        DialogEvent::Failed,
        1
    ));
    assert!(!progress.dialogs_exhausted);
    assert!(!take_dialog(
        &mut cache,
        &mut progress,
        DialogEvent::Exhausted,
        1
    ));
    assert!(progress.dialogs_exhausted);
}

#[test]
fn dialogs_are_exhausted_where_neither_number_is_reached() {
    let run = |target: usize, limit: usize, count: i64| {
        let mut cache = TelegramPeerCache::empty();
        let mut progress = start_recent_dialogs(target, limit);
        let mut next = 1;
        while wants_more_dialogs(&progress) {
            let event = if next > count {
                DialogEvent::Exhausted
            } else if next % 2 == 0 {
                DialogEvent::Dialog(profile(PeerKind::Group, next), Some(next))
            } else {
                DialogEvent::Dialog(user(next, "A", "B"), Some(next))
            };
            next += 1;
            if !take_dialog(&mut cache, &mut progress, event, 1) {
                break;
            }
        }
        assert_eq!(cache.peers.len(), progress.dialogs_seen);
        (
            progress.dialogs_seen,
            progress.direct_users_seen,
            progress.dialogs_exhausted,
        )
    };
    assert_eq!(run(3, 10, 20), (5, 3, false));
    assert_eq!(run(9, 10, 20), (10, 5, false));
    assert_eq!(run(9, 10, 7), (7, 4, true));
    assert_eq!(run(3, 10, 5), (5, 3, false));
    assert_eq!(run(4, 4, 20), (4, 2, false));
    assert_eq!(run(1, 1, 0), (0, 0, true));
}

#[test]
fn avatars_are_fetched_once() {
    let mut cache = TelegramPeerCache::empty();
    let rin = user(5, "Rin", "");
    assert!(observe_saved_contact(&mut cache, &rin, 1));
    assert!(!hydrate_chat_avatar(&mut cache, &rin, None, "saved_contact", 1));
    let uri = avatar_data_uri(&b"fake-avatar".to_vec()).unwrap();
    assert_eq!(uri, "data:image/jpeg;base64,ZmFrZS1hdmF0YXI=");
    assert!(hydrate_chat_avatar(
        &mut cache,
        &rin,
        Some(uri.clone()),
        "saved_contact",
        1
    ));
    assert!(cache.has_avatar(&rin));
    assert!(!hydrate_chat_avatar(
        &mut cache,
        &rin,
        Some("other".to_string()),
        "saved_contact",
        1
    ));
    assert!(!observe_saved_contact(&mut cache, &rin, 2));
    assert_eq!(cache.find("user", 5).unwrap().avatar, Some(uri));
    hydrate_chat_avatars_deferred(
        &mut cache,
        &vec![FetchedAvatar {
            chat: user(5, "Rin", ""),
            avatar: "data:new".to_string(),
        }],
        3,
    );
    assert_eq!(
        cache.find("user", 5).unwrap().avatar.as_deref(),
        Some("data:new")
    );
    assert_eq!(
        cache.find("user", 5).unwrap().source.as_deref(),
        Some("dialog")
    );
}

#[test]
fn images_are_encoded_in_base64() {
    assert_eq!(avatar_data_uri(&Vec::new()), None);
    let prefix = "data:image/jpeg;base64,";
    for (bytes, text) in [
        (vec![0u8], "AA=="),
        (vec![255u8, 255u8], "//8="),
        (vec![251u8, 239u8, 190u8], "++++"),
        (b"Man".to_vec(), "TWFu"),
        (b"light work.".to_vec(), "bGlnaHQgd29yay4="),
    ] {
        assert_eq!(avatar_data_uri(&bytes), Some(format!("{prefix}{text}")));
    }
}
