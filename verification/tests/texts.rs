use puffer_contacts::context::{entropy_counts, EntropyCounts};
use puffer_contacts::json::{copy_json, parse_json, Json};
use puffer_contacts::names::{
    contact_id_is_bot_like, merge_candidate_last_message_at_ms, merge_candidate_name,
    merge_telegram_name, name_is_bot_like, name_looks_like_contact_id, name_should_include_handle,
    public_username_from_contact_id, sanitize_public_username, username_looks_like_bot,
};
use puffer_contacts::score::{greater_score, score_is_less, score_is_missing, SCORE_FLOOR};
use puffer_contacts::text::{
    bytes_in, char_is_space, char_to_lower, comes_before, contains, put_text, signed_text,
    split_words, strip_leading, trim, unsigned_text, word_count,
};
use puffer_contacts::text_map::TextMap;

#[test]
fn white_space_is_that_of_unicode() {
    for c in '\0'..=char::MAX {
        assert_eq!(char_is_space(c), c.is_whitespace(), "{c:?}");
        assert_eq!(char_to_lower(c), c.to_ascii_lowercase(), "{c:?}");
    }
}

#[test]
fn text_operations_agree_with_the_standard_library() {
    for text in [
        "", " ", "  a b  c ", "\u{3000}Rin\u{a0}Tohsaka ", "@@x@", "naïve — text", "one",
    ] {
        assert_eq!(trim(text), text.trim());
        assert_eq!(word_count(text), text.split_whitespace().count());
        assert_eq!(
            split_words(text),
            text.split_whitespace().collect::<Vec<_>>()
        );
        assert_eq!(strip_leading(text, '@'), text.trim_start_matches('@'));
        assert_eq!(bytes_in(text), text.len());
        for other in ["", "a", "b  c", "Rin", "—", "xyz"] {
            assert_eq!(contains(text, other), text.contains(other));
            assert_eq!(comes_before(text, other), text < other);
        }
    }
}

#[test]
fn numbers_are_written_in_decimal() {
    for n in [0i64, 7, 10, -1, i64::MIN, i64::MAX, 5229190700] {
        assert_eq!(signed_text(n), n.to_string());
    }
    assert_eq!(unsigned_text(u64::MAX), u64::MAX.to_string());
}

#[test]
fn texts_are_put_in_order_once() {
    let mut list: Vec<String> = Vec::new();
    for text in ["b", "a", "b", "c", "B"] {
        put_text(&mut list, text.to_string());
    }
    assert_eq!(list, vec!["B", "a", "b", "c"]);
}

#[test]
fn maps_keep_one_value_for_each_key() {
    let mut map: TextMap<String> = TextMap::new();
    assert!(map.is_empty());
    map.insert("a".to_string(), "1".to_string());
    map.insert("b".to_string(), "2".to_string());
    map.insert("a".to_string(), "3".to_string());
    assert_eq!(map.len(), 2);
    assert_eq!(map.get("a").map(String::as_str), Some("3"));
    assert_eq!(map.take("a").as_deref(), Some("3"));
    assert!(map.get("a").is_none());
    assert_eq!(map.into_values(), vec!["2"]);
}

#[test]
fn scores_compare_like_the_numbers_that_they_encode() {
    let numbers = [
        0.0f64,
        -0.0,
        0.01,
        1.0,
        -1.0,
        100.5,
        f64::MIN_POSITIVE,
        f64::MAX,
        f64::MIN,
        f64::INFINITY,
        f64::NEG_INFINITY,
        f64::NAN,
    ];
    for a in numbers {
        assert_eq!(score_is_missing(a.to_bits()), a.is_nan());
        for b in numbers {
            assert_eq!(score_is_less(a.to_bits(), b.to_bits()), a < b, "{a} {b}");
            let greater = f64::from_bits(greater_score(a.to_bits(), b.to_bits()));
            assert!(greater == a.max(b) || (a.is_nan() && b.is_nan()), "{a} {b}");
        }
    }
    assert_eq!(f64::from_bits(SCORE_FLOOR), 0.01);
}

#[test]
fn words_are_counted_for_their_entropy() {
    let counts = |unique: usize, total: usize| EntropyCounts { unique, total };
    assert_eq!(entropy_counts(""), counts(0, 0));
    assert_eq!(entropy_counts("a - !"), counts(0, 0));
    assert_eq!(entropy_counts("Yes, yes! (YES)"), counts(1, 3));
    assert_eq!(entropy_counts("the launch plan a"), counts(3, 3));
    assert_eq!(entropy_counts("«über» é über"), counts(2, 3));
}

#[test]
fn json_is_read_as_it_stands() {
    assert!(parse_json("{").is_none());
    let value = parse_json(r#"{"a": [1, -2, 1.5, true, null], "b": {"c": "x"}, "n": 18446744073709551615}"#)
        .unwrap();
    let items = value.get("a").and_then(Json::as_array).unwrap();
    assert_eq!(items[0].as_i64(), Some(1));
    assert_eq!(items[0].as_u64(), Some(1));
    assert_eq!(items[1].as_i64(), Some(-2));
    assert_eq!(items[1].as_u64(), None);
    assert_eq!(items[2].as_i64(), None);
    assert_eq!(items[3].as_bool(), Some(true));
    assert!(matches!(items[4], Json::Null));
    assert_eq!(value.get("b").and_then(|b| b.str_at("c")), Some("x"));
    assert_eq!(value.u64_at("n"), Some(u64::MAX));
    assert_eq!(value.i64_at("n"), None);
    assert_eq!(copy_json(&value).get("b").and_then(|b| b.str_at("c")), Some("x"));
    assert!(value.get("missing").is_none());
}

#[test]
fn bots_are_told_from_people() {
    for id in [
        "telegram@alertbot",
        "Telegram@AlertBot",
        "google@support-bot@example.com",
        "lark@bot",
        "slack@a_bot",
        "google@x.bot",
    ] {
        assert!(contact_id_is_bot_like(id), "{id}");
    }
    for id in [
        "telegram@alice",
        "telegram-user-id@5",
        "google@robot@example.com",
        "bot",
        "google@talbot@example.com",
    ] {
        assert!(!contact_id_is_bot_like(id), "{id}");
    }
    assert!(name_is_bot_like(" Alert Bot "));
    assert!(name_is_bot_like("My Support Bot Desk"));
    assert!(!name_is_bot_like("Talbot"));
    assert!(username_looks_like_bot(Some("FooBOT")));
    assert!(!username_looks_like_bot(None));
}

#[test]
fn names_are_never_replaced_by_ids() {
    let mut name = Some("telegram@alice_smith_the_second".to_string());
    merge_candidate_name(&mut name, Some("Al"));
    assert_eq!(name.as_deref(), Some("Al"));
    merge_candidate_name(&mut name, Some("google@alice@example.com"));
    assert_eq!(name.as_deref(), Some("Al"));
    merge_candidate_name(&mut name, Some("  "));
    merge_candidate_name(&mut name, Some(" Alice "));
    assert_eq!(name.as_deref(), Some("Alice"));
    let mut telegram = Some("Alice".to_string());
    merge_telegram_name(&mut telegram, &Some("telegram-user-id@5".to_string()));
    assert_eq!(telegram.as_deref(), Some("Alice"));
    // Only Telegram ids are told from names there.
    merge_telegram_name(&mut telegram, &Some("google@alice@example.com".to_string()));
    assert_eq!(telegram.as_deref(), Some("google@alice@example.com"));
    assert!(name_looks_like_contact_id(" SLACK@x"));
    assert!(!name_looks_like_contact_id("mail@x"));
}

#[test]
fn usernames_are_cleaned() {
    assert_eq!(sanitize_public_username(" @@rin "), Some("rin".to_string()));
    assert_eq!(sanitize_public_username(" @ "), None);
    assert_eq!(
        public_username_from_contact_id("telegram@rin"),
        Some("rin".to_string())
    );
    assert_eq!(public_username_from_contact_id("telegram-user-id@5"), None);
    assert!(name_should_include_handle("Alice", "alice_smith"));
    assert!(!name_should_include_handle("Alice", "@ALICE"));
    assert!(!name_should_include_handle("Alice Smith", "asmith"));
    assert!(!name_should_include_handle("—", "asmith"));
}

#[test]
fn the_last_message_is_never_set_back() {
    let mut time = None;
    merge_candidate_last_message_at_ms(&mut time, None);
    assert_eq!(time, None);
    merge_candidate_last_message_at_ms(&mut time, Some(5));
    merge_candidate_last_message_at_ms(&mut time, Some(3));
    merge_candidate_last_message_at_ms(&mut time, None);
    assert_eq!(time, Some(5));
}
