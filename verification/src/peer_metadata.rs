//! What the peer cache of an account tells of its direct contacts.

use crate::json::{parse_json, parsed_json, Json, JsonView};
use crate::names::{
    full_name, fuller_telegram_name, is_bare, joined_name, later_time, law_usernames_are_bare,
    merge_candidate_last_message_at_ms, merge_candidate_public_username, merged_username,
    public_username, sanitize_public_username, telegram_name_is_more_complete,
};
use crate::order::views;
use crate::text::{
    as_text, ascending, clean_opt, cleaned, decimal, first_of, insert_text, joined, law_insert_text,
    opt_str, opt_text, own, put_text, same_text, signed_text, text_less, texts,
};
use crate::text_map::{
    distinct_keys, entry_list, lemma_merged_none, lemma_merged_step, lookup, map_of, merged_map,
    TextMap,
};
use vstd::prelude::*;
use vstd::string::*;

verus! {

/// The number of fields of a cached peer that are read.
pub const ENTRY_FIELDS: usize = 10;

/// One cached peer, as far as it is read here.
#[derive(Debug)]
pub struct TelegramPeerCacheEntry {
    pub numeric_id: i64,
    pub kind: String,
    pub title: Option<String>,
    pub username: Option<String>,
    pub usernames: Vec<String>,
    pub first_name: Option<String>,
    pub last_name: Option<String>,
    pub avatar: Option<String>,
    pub is_bot: bool,
    pub last_message_at_ms: Option<i128>,
}

pub ghost struct EntryView {
    pub numeric_id: i64,
    pub kind: Seq<char>,
    pub title: Option<Seq<char>>,
    pub username: Option<Seq<char>>,
    pub usernames: Seq<Seq<char>>,
    pub first_name: Option<Seq<char>>,
    pub last_name: Option<Seq<char>>,
    pub avatar: Option<Seq<char>>,
    pub is_bot: bool,
    pub last_message_at_ms: Option<i128>,
}

impl View for TelegramPeerCacheEntry {
    type V = EntryView;

    open spec fn view(&self) -> EntryView {
        EntryView {
            numeric_id: self.numeric_id,
            kind: self.kind@,
            title: opt_text(self.title),
            username: opt_text(self.username),
            usernames: texts(self.usernames@),
            first_name: opt_text(self.first_name),
            last_name: opt_text(self.last_name),
            avatar: opt_text(self.avatar),
            is_bot: self.is_bot,
            last_message_at_ms: self.last_message_at_ms,
        }
    }
}

/// What is known of a direct contact.
#[derive(Debug)]
pub struct TelegramPeerMetadata {
    pub name: Option<String>,
    pub public_username: Option<String>,
    pub avatar: Option<String>,
    pub last_message_at_ms: Option<i128>,
}

pub ghost struct MetadataView {
    pub name: Option<Seq<char>>,
    pub public_username: Option<Seq<char>>,
    pub avatar: Option<Seq<char>>,
    pub last_message_at_ms: Option<i128>,
}

impl View for TelegramPeerMetadata {
    type V = MetadataView;

    open spec fn view(&self) -> MetadataView {
        MetadataView {
            name: opt_text(self.name),
            public_username: opt_text(self.public_username),
            avatar: opt_text(self.avatar),
            last_message_at_ms: self.last_message_at_ms,
        }
    }
}

/// Under which ids a peer is known.
#[derive(Debug, Clone, Copy, PartialEq, Eq, Structural)]
pub enum TelegramPeerMetadataIdMode {
    /// Under its number, and under its usernames only where it has no number.
    Primary,
    /// Under its number and under every username.
    Aliases,
}

/// A field of a cached peer: by its name in an object, by its position in an array.
pub open spec fn field(value: JsonView, key: Seq<char>, position: int) -> Option<JsonView> {
    match value {
        JsonView::Object(_) => value.member(key),
        JsonView::Array(items) => if position < items.len() {
            Some(items[position])
        } else {
            None
        },
        _ => None,
    }
}

/// An integer; a field that is not there is zero. `None` where something else stands there.
pub open spec fn integer_field(value: Option<JsonView>) -> Option<i64> {
    match value {
        None => Some(0),
        Some(value) => value.signed(),
    }
}

/// A text; a field that is not there is empty.
pub open spec fn text_field(value: Option<JsonView>) -> Option<Seq<char>> {
    match value {
        None => Some(Seq::empty()),
        Some(value) => value.text(),
    }
}

/// An optional text; a field that is not there, or is `null`, is no text.
pub open spec fn optional_text_field(value: Option<JsonView>) -> Option<Option<Seq<char>>> {
    match value {
        None => Some(None),
        Some(JsonView::Null) => Some(None),
        Some(value) => match value.text() {
            Some(text) => Some(Some(text)),
            None => None,
        },
    }
}

pub open spec fn all_texts(items: Seq<JsonView>) -> bool {
    forall|i: int| 0 <= i < items.len() ==> (#[trigger] items[i]).text() is Some
}

/// A list of texts; a field that is not there is empty.
pub open spec fn text_list_field(value: Option<JsonView>) -> Option<Seq<Seq<char>>> {
    match value {
        None => Some(Seq::empty()),
        Some(value) => match value.items() {
            Some(items) if all_texts(items) => Some(
                items.map_values(|item: JsonView| item.text()->0),
            ),
            _ => None,
        },
    }
}

/// A flag; a field that is not there is false.
pub open spec fn flag_field(value: Option<JsonView>) -> Option<bool> {
    match value {
        None => Some(false),
        Some(value) => value.flag(),
    }
}

/// An optional time; a field that is not there, or is `null`, is no time.
pub open spec fn time_field(value: Option<JsonView>) -> Option<Option<i128>> {
    match value {
        None => Some(None),
        Some(JsonView::Null) => Some(None),
        Some(value) => match (value.signed(), value.unsigned()) {
            (Some(n), _) => Some(Some(n as i128)),
            (None, Some(n)) => Some(Some(n as i128)),
            (None, None) => None,
        },
    }
}

/// The cached peer in a JSON value; `None` where the value is malformed.
pub open spec fn entry_in(value: JsonView) -> Option<EntryView> {
    let shaped = match value {
        JsonView::Object(_) => true,
        JsonView::Array(items) => items.len() <= ENTRY_FIELDS,
        _ => false,
    };
    match (
        integer_field(field(value, "numeric_id"@, 0)),
        text_field(field(value, "kind"@, 1)),
        optional_text_field(field(value, "title"@, 2)),
        optional_text_field(field(value, "username"@, 3)),
        text_list_field(field(value, "usernames"@, 4)),
        optional_text_field(field(value, "first_name"@, 5)),
        optional_text_field(field(value, "last_name"@, 6)),
        optional_text_field(field(value, "avatar"@, 7)),
        flag_field(field(value, "is_bot"@, 8)),
        time_field(field(value, "last_message_at_ms"@, 9)),
    ) {
        (
            Some(numeric_id),
            Some(kind),
            Some(title),
            Some(username),
            Some(usernames),
            Some(first_name),
            Some(last_name),
            Some(avatar),
            Some(is_bot),
            Some(last_message_at_ms),
        ) if shaped => Some(
            EntryView {
                numeric_id,
                kind,
                title,
                username,
                usernames,
                first_name,
                last_name,
                avatar,
                is_bot,
                last_message_at_ms,
            },
        ),
        _ => None,
    }
}

pub open spec fn or_empty(text: Option<Seq<char>>) -> Seq<char> {
    match text {
        Some(text) => text,
        None => Seq::empty(),
    }
}

/// The name of a cached peer: its title, or its first and last name where they say more.
pub open spec fn entry_name(peer: EntryView) -> Option<Seq<char>> {
    let name = cleaned(peer.title);
    match full_name(or_empty(peer.first_name), peer.last_name) {
        Some(full) if fuller_telegram_name(name, full) => Some(full),
        _ => name,
    }
}

/// The usernames in a list, cleaned, added to a sorted list.
pub open spec fn with_handles(list: Seq<Seq<char>>, values: Seq<Seq<char>>) -> Seq<Seq<char>>
    decreases values.len(),
{
    if values.len() == 0 {
        list
    } else {
        let before = with_handles(list, values.drop_last());
        match public_username(values.last()) {
            Some(value) => insert_text(before, value),
            None => before,
        }
    }
}

/// The usernames of a cached peer, sorted and without repetition.
pub open spec fn entry_handles(peer: EntryView) -> Seq<Seq<char>> {
    with_handles(
        match peer.username {
            Some(username) => with_handles(Seq::empty(), seq![username]),
            None => Seq::empty(),
        },
        peer.usernames,
    )
}

pub open spec fn entry_username(peer: EntryView) -> Option<Seq<char>> {
    if entry_handles(peer).len() > 0 {
        Some(entry_handles(peer)[0])
    } else {
        None
    }
}

/// The contact id of a Telegram user by number, before it is normalized.
pub open spec fn numbered_id(id: int) -> Seq<char> {
    "telegram-user-id@"@ + decimal(id)
}

/// The contact id of a Telegram user by name, before it is normalized.
pub open spec fn named_id(username: Seq<char>) -> Seq<char> {
    "telegram@"@ + username
}

/// The ids of usernames, as far as they can be normalized, added to a sorted list.
pub open spec fn with_named_ids(
    list: Seq<Seq<char>>,
    usernames: Seq<Seq<char>>,
    ids: Map<Seq<char>, Seq<char>>,
) -> Seq<Seq<char>>
    decreases usernames.len(),
{
    if usernames.len() == 0 {
        list
    } else {
        let before = with_named_ids(list, usernames.drop_last(), ids);
        match lookup(ids, named_id(usernames.last())) {
            Some(id) => insert_text(before, id),
            None => before,
        }
    }
}

/// The ids that a cached peer is known under. `ids` holds the normalized form of each id that has
/// one.
pub open spec fn entry_ids(
    peer: EntryView,
    mode: TelegramPeerMetadataIdMode,
    ids: Map<Seq<char>, Seq<char>>,
) -> Seq<Seq<char>> {
    let numbered = if peer.numeric_id > 0 {
        lookup(ids, numbered_id(peer.numeric_id as int))
    } else {
        None
    };
    let list = match numbered {
        Some(id) => seq![id],
        None => Seq::empty(),
    };
    if mode == TelegramPeerMetadataIdMode::Aliases || numbered is None {
        with_named_ids(list, entry_handles(peer), ids)
    } else {
        list
    }
}

/// What a cached peer tells, where it is a person and tells anything.
pub open spec fn entry_metadata(peer: EntryView) -> Option<MetadataView> {
    let metadata = MetadataView {
        name: entry_name(peer),
        public_username: entry_username(peer),
        avatar: cleaned(peer.avatar),
        last_message_at_ms: peer.last_message_at_ms,
    };
    if peer.kind != "user"@ || peer.is_bot || metadata == no_metadata() {
        None
    } else {
        Some(metadata)
    }
}

pub open spec fn no_metadata() -> MetadataView {
    MetadataView { name: None, public_username: None, avatar: None, last_message_at_ms: None }
}

/// What is known of a contact after something more was told of it.
pub open spec fn merged_metadata(existing: MetadataView, told: MetadataView) -> MetadataView {
    MetadataView {
        name: match told.name {
            Some(name) if fuller_telegram_name(existing.name, name) => told.name,
            _ => existing.name,
        },
        public_username: merged_username(existing.public_username, told.public_username),
        avatar: first_of(existing.avatar, told.avatar),
        last_message_at_ms: later_time(existing.last_message_at_ms, told.last_message_at_ms),
    }
}

pub open spec fn told(
    known: Map<Seq<char>, MetadataView>,
    id: Seq<char>,
    metadata: MetadataView,
) -> Map<Seq<char>, MetadataView> {
    known.insert(
        id,
        merged_metadata(
            match lookup(known, id) {
                Some(existing) => existing,
                None => no_metadata(),
            },
            metadata,
        ),
    )
}

/// The same told of several contacts.
pub open spec fn told_each(
    known: Map<Seq<char>, MetadataView>,
    ids: Seq<Seq<char>>,
    metadata: MetadataView,
) -> Map<Seq<char>, MetadataView>
    decreases ids.len(),
{
    if ids.len() == 0 {
        known
    } else {
        told(told_each(known, ids.drop_last(), metadata), ids.last(), metadata)
    }
}

/// What a list of cached peers tells. Malformed peers are passed over.
pub open spec fn peers_metadata(
    peers: Seq<JsonView>,
    mode: TelegramPeerMetadataIdMode,
    ids: Map<Seq<char>, Seq<char>>,
) -> Map<Seq<char>, MetadataView>
    decreases peers.len(),
{
    if peers.len() == 0 {
        Map::empty()
    } else {
        let before = peers_metadata(peers.drop_last(), mode, ids);
        match entry_in(peers.last()) {
            Some(peer) => match entry_metadata(peer) {
                Some(metadata) => told_each(before, entry_ids(peer, mode, ids), metadata),
                None => before,
            },
            None => before,
        }
    }
}

/// What a cache tells. A value without a list of peers tells nothing.
pub open spec fn cache_metadata(
    cache: Option<JsonView>,
    mode: TelegramPeerMetadataIdMode,
    ids: Map<Seq<char>, Seq<char>>,
) -> Map<Seq<char>, MetadataView> {
    match cache {
        Some(cache) => match cache.member("peers"@) {
            Some(peers) => match peers.items() {
                Some(items) => peers_metadata(items, mode, ids),
                None => Map::empty(),
            },
            None => Map::empty(),
        },
        None => Map::empty(),
    }
}

/// What the text of a cache file tells, where there is a file.
pub open spec fn file_metadata(
    raw: Option<Seq<char>>,
    mode: TelegramPeerMetadataIdMode,
    ids: Map<Seq<char>, Seq<char>>,
) -> Map<Seq<char>, MetadataView> {
    match raw {
        Some(text) => cache_metadata(parsed_json(text), mode, ids),
        None => Map::empty(),
    }
}

spec fn opt_json(value: Option<&Json>) -> Option<JsonView> {
    match value {
        Some(value) => Some(value@),
        None => None,
    }
}

fn find_field<'a>(value: &'a Json, key: &str, position: usize) -> (r: Option<&'a Json>)
    ensures
        opt_json(r) == field(value@, key@, position as int),
{
    match value {
        Json::Object(_) => value.get(key),
        Json::Array(items) => {
            if position < items.len() {
                Some(&items[position])
            } else {
                None
            }
        },
        _ => None,
    }
}

fn read_integer(value: Option<&Json>) -> (r: Option<i64>)
    ensures
        r == integer_field(opt_json(value)),
{
    match value {
        None => Some(0),
        Some(value) => value.as_i64(),
    }
}

fn read_text(value: Option<&Json>) -> (r: Option<String>)
    ensures
        opt_text(r) == text_field(opt_json(value)),
{
    match value {
        None => {
            let empty = String::new();
            assert(empty@ =~= Seq::<char>::empty());
            Some(empty)
        },
        Some(value) => own(value.as_str()),
    }
}

spec fn opt_opt_text(value: Option<Option<String>>) -> Option<Option<Seq<char>>> {
    match value {
        Some(text) => Some(opt_text(text)),
        None => None,
    }
}

fn read_optional_text(value: Option<&Json>) -> (r: Option<Option<String>>)
    ensures
        opt_opt_text(r) == optional_text_field(opt_json(value)),
{
    match value {
        None => Some(None),
        Some(Json::Null) => Some(None),
        Some(Json::Text(text)) => Some(Some(text.clone())),
        _ => None,
    }
}

spec fn opt_texts(value: Option<Vec<String>>) -> Option<Seq<Seq<char>>> {
    match value {
        Some(list) => Some(texts(list@)),
        None => None,
    }
}

fn read_text_list(value: Option<&Json>) -> (r: Option<Vec<String>>)
    ensures
        opt_texts(r) == text_list_field(opt_json(value)),
{
    match value {
        None => {
            let empty: Vec<String> = Vec::new();
            assert(texts(empty@) =~= Seq::<Seq<char>>::empty());
            Some(empty)
        },
        Some(list) => match list.as_array() {
            None => None,
            Some(items) => {
                let ghost all = views(items@);
                assert(all =~= items@.map_values(|item: Json| item@));
                let mut out: Vec<String> = Vec::new();
                for i in 0..items.len()
                    invariant
                        all == views(items@),
                        value == Some(list),
                        list@.items() == Some(all),
                        out@.len() == i,
                        forall|j: int|
                            0 <= j < i ==> (#[trigger] all[j]).text() == Some(out@[j]@),
                {
                    assert(all[i as int] == items@[i as int]@);
                    match items[i].as_str() {
                        Some(text) => {
                            out.push(text.to_owned());
                        },
                        None => {
                            assert(!all_texts(all));
                            return None;
                        },
                    }
                }
                assert(all_texts(all));
                assert(texts(out@) =~= all.map_values(|item: JsonView| item.text()->0));
                Some(out)
            },
        },
    }
}

fn read_flag(value: Option<&Json>) -> (r: Option<bool>)
    ensures
        r == flag_field(opt_json(value)),
{
    match value {
        None => Some(false),
        Some(value) => value.as_bool(),
    }
}

fn read_time(value: Option<&Json>) -> (r: Option<Option<i128>>)
    ensures
        r == time_field(opt_json(value)),
{
    match value {
        None => Some(None),
        Some(Json::Null) => Some(None),
        Some(value) => match value.as_i64() {
            Some(n) => Some(Some(n as i128)),
            None => match value.as_u64() {
                Some(n) => Some(Some(n as i128)),
                None => None,
            },
        },
    }
}

/// Reads a cached peer; nothing where the value is malformed.
pub fn read_peer_entry(value: &Json) -> (r: Option<TelegramPeerCacheEntry>)
    ensures
        match r {
            Some(peer) => entry_in(value@) == Some(peer@),
            None => entry_in(value@) is None,
        },
{
    let shaped = match value {
        Json::Object(_) => true,
        Json::Array(items) => items.len() <= ENTRY_FIELDS,
        _ => false,
    };
    if !shaped {
        return None;
    }
    let numeric_id = match read_integer(find_field(value, "numeric_id", 0)) {
        Some(field) => field,
        None => return None,
    };
    let kind = match read_text(find_field(value, "kind", 1)) {
        Some(field) => field,
        None => return None,
    };
    let title = match read_optional_text(find_field(value, "title", 2)) {
        Some(field) => field,
        None => return None,
    };
    let username = match read_optional_text(find_field(value, "username", 3)) {
        Some(field) => field,
        None => return None,
    };
    let usernames = match read_text_list(find_field(value, "usernames", 4)) {
        Some(field) => field,
        None => return None,
    };
    let first_name = match read_optional_text(find_field(value, "first_name", 5)) {
        Some(field) => field,
        None => return None,
    };
    let last_name = match read_optional_text(find_field(value, "last_name", 6)) {
        Some(field) => field,
        None => return None,
    };
    let avatar = match read_optional_text(find_field(value, "avatar", 7)) {
        Some(field) => field,
        None => return None,
    };
    let is_bot = match read_flag(find_field(value, "is_bot", 8)) {
        Some(field) => field,
        None => return None,
    };
    let last_message_at_ms = match read_time(find_field(value, "last_message_at_ms", 9)) {
        Some(field) => field,
        None => return None,
    };
    Some(
        TelegramPeerCacheEntry {
            numeric_id,
            kind,
            title,
            username,
            usernames,
            first_name,
            last_name,
            avatar,
            is_bot,
            last_message_at_ms,
        },
    )
}

/// The name of a cached peer.
pub fn peer_cache_entry_name(peer: &TelegramPeerCacheEntry) -> (r: Option<String>)
    ensures
        opt_text(r) == entry_name(peer@),
{
    let name = own(clean_opt(as_text(&peer.title)));
    let first = match &peer.first_name {
        Some(first) => first.as_str(),
        None => {
            proof {
                reveal_strlit("");
                assert(""@ =~= Seq::<char>::empty());
            }
            ""
        },
    };
    match joined_name(first, as_text(&peer.last_name)) {
        Some(full) => {
            if telegram_name_is_more_complete(as_text(&name), full.as_str()) {
                Some(full)
            } else {
                name
            }
        },
        None => name,
    }
}

/// The avatar of a cached peer.
pub fn peer_cache_entry_avatar(peer: &TelegramPeerCacheEntry) -> (r: Option<String>)
    ensures
        opt_text(r) == cleaned(peer@.avatar),
{
    own(clean_opt(as_text(&peer.avatar)))
}

/// The usernames of a cached peer, sorted and without repetition.
pub fn peer_cache_entry_usernames(peer: &TelegramPeerCacheEntry) -> (r: Vec<String>)
    ensures
        texts(r@) == entry_handles(peer@),
{
    let mut usernames: Vec<String> = Vec::new();
    assert(texts(usernames@) =~= Seq::<Seq<char>>::empty());
    if let Some(username) = &peer.username {
        proof {
            let one = seq![username@];
            assert(one.drop_last() =~= Seq::<Seq<char>>::empty());
            reveal_with_fuel(with_handles, 2);
        }
        if let Some(value) = sanitize_public_username(username.as_str()) {
            put_text(&mut usernames, value);
        }
    }
    let ghost start = texts(usernames@);
    let ghost all = texts(peer.usernames@);
    for i in 0..peer.usernames.len()
        invariant
            all == texts(peer.usernames@),
            texts(usernames@) == with_handles(start, all.take(i as int)),
    {
        assert(all.take(i + 1).drop_last() =~= all.take(i as int));
        assert(all.take(i + 1).last() == peer.usernames@[i as int]@);
        if let Some(value) = sanitize_public_username(peer.usernames[i].as_str()) {
            put_text(&mut usernames, value);
        }
    }
    assert(all.take(all.len() as int) =~= all);
    usernames
}

/// The public username of a cached peer.
pub fn peer_cache_entry_public_username(peer: &TelegramPeerCacheEntry) -> (r: Option<String>)
    ensures
        opt_text(r) == entry_username(peer@),
{
    let usernames = peer_cache_entry_usernames(peer);
    assert(texts(usernames@).len() == usernames@.len());
    if usernames.len() > 0 {
        assert(texts(usernames@)[0] == usernames@[0]@);
        Some(usernames[0].clone())
    } else {
        None
    }
}

/// The contact id of a Telegram user by number, before it is normalized.
pub fn numbered_contact_id(id: i64) -> (r: String)
    ensures
        r@ == numbered_id(id as int),
{
    joined("telegram-user-id@", signed_text(id).as_str())
}

/// The contact id of a Telegram user by name, before it is normalized.
pub fn named_contact_id(username: &str) -> (r: String)
    ensures
        r@ == named_id(username@),
{
    joined("telegram@", username)
}

/// The contact id of the local account.
pub fn telegram_session_user_contact_id(user_id: Option<i64>, ids: &TextMap<String>) -> (r: Option<
    String,
>)
    ensures
        opt_text(r) == (match user_id {
            Some(id) => lookup(ids@, numbered_id(id as int)),
            None => None,
        }),
{
    match user_id {
        Some(id) => match ids.get(numbered_contact_id(id).as_str()) {
            Some(id) => Some(id.clone()),
            None => None,
        },
        None => None,
    }
}

/// The ids that a cached peer is known under.
pub fn peer_cache_entry_contact_ids(
    peer: &TelegramPeerCacheEntry,
    mode: TelegramPeerMetadataIdMode,
    ids: &TextMap<String>,
) -> (r: Vec<String>)
    ensures
        texts(r@) == entry_ids(peer@, mode, ids@),
{
    let mut out: Vec<String> = Vec::new();
    assert(texts(out@) =~= Seq::<Seq<char>>::empty());
    if peer.numeric_id > 0 {
        if let Some(id) = ids.get(numbered_contact_id(peer.numeric_id).as_str()) {
            out.push(id.clone());
            assert(texts(out@) =~= seq![id@]);
        }
    }
    if mode == TelegramPeerMetadataIdMode::Aliases || out.len() == 0 {
        let ghost start = texts(out@);
        let usernames = peer_cache_entry_usernames(peer);
        let ghost all = texts(usernames@);
        for i in 0..usernames.len()
            invariant
                all == texts(usernames@),
                texts(out@) == with_named_ids(start, all.take(i as int), ids@),
        {
            assert(all.take(i + 1).drop_last() =~= all.take(i as int));
            assert(all.take(i + 1).last() == usernames@[i as int]@);
            if let Some(id) = ids.get(named_contact_id(usernames[i].as_str()).as_str()) {
                put_text(&mut out, id.clone());
            }
        }
        assert(all.take(all.len() as int) =~= all);
    }
    out
}

impl TelegramPeerMetadata {
    /// Copies what is known.
    pub fn copy(&self) -> (r: TelegramPeerMetadata)
        ensures
            r@ == self@,
    {
        TelegramPeerMetadata {
            name: self.name.clone(),
            public_username: self.public_username.clone(),
            avatar: self.avatar.clone(),
            last_message_at_ms: self.last_message_at_ms,
        }
    }

    /// Nothing is known.
    pub fn nothing() -> (r: TelegramPeerMetadata)
        ensures
            r@ == no_metadata(),
    {
        TelegramPeerMetadata {
            name: None,
            public_username: None,
            avatar: None,
            last_message_at_ms: None,
        }
    }
}

/// Takes in what is told of a contact.
pub fn merge_peer_metadata(
    metadata: &mut TextMap<TelegramPeerMetadata>,
    id: String,
    candidate: TelegramPeerMetadata,
)
    ensures
        final(metadata)@ == told(old(metadata)@, id@, candidate@),
{
    let mut entry = match metadata.take(id.as_str()) {
        Some(existing) => existing,
        None => TelegramPeerMetadata::nothing(),
    };
    if let Some(name) = candidate.name {
        if telegram_name_is_more_complete(as_text(&entry.name), name.as_str()) {
            entry.name = Some(name);
        }
    }
    merge_candidate_public_username(&mut entry.public_username, as_text(&candidate.public_username));
    if entry.avatar.is_none() {
        entry.avatar = candidate.avatar;
    }
    merge_candidate_last_message_at_ms(
        &mut entry.last_message_at_ms,
        candidate.last_message_at_ms,
    );
    let ghost merged = entry@;
    let ghost key = id@;
    metadata.insert(id, entry);
    assert(old(metadata)@.remove(key).insert(key, merged) =~= old(metadata)@.insert(key, merged));
}

/// What a cached peer tells, where it is a person and tells anything.
pub fn peer_entry_metadata(peer: &TelegramPeerCacheEntry) -> (r: Option<TelegramPeerMetadata>)
    ensures
        match r {
            Some(metadata) => entry_metadata(peer@) == Some(metadata@),
            None => entry_metadata(peer@) is None,
        },
{
    if !same_text(peer.kind.as_str(), "user") || peer.is_bot {
        return None;
    }
    let metadata = TelegramPeerMetadata {
        name: peer_cache_entry_name(peer),
        public_username: peer_cache_entry_public_username(peer),
        avatar: peer_cache_entry_avatar(peer),
        last_message_at_ms: peer.last_message_at_ms,
    };
    if metadata.name.is_none() && metadata.public_username.is_none() && metadata.avatar.is_none()
        && metadata.last_message_at_ms.is_none() {
        return None;
    }
    Some(metadata)
}

/// What a parsed peer cache tells.
pub fn peer_metadata_from_cache(
    cache: &Json,
    mode: TelegramPeerMetadataIdMode,
    ids: &TextMap<String>,
) -> (r: TextMap<TelegramPeerMetadata>)
    ensures
        r@ == cache_metadata(Some(cache@), mode, ids@),
{
    let mut metadata: TextMap<TelegramPeerMetadata> = TextMap::new();
    let peers = match cache.get("peers") {
        Some(peers) => match peers.as_array() {
            Some(peers) => peers,
            None => return metadata,
        },
        None => return metadata,
    };
    let ghost all = peers@.map_values(|item: Json| item@);
    for i in 0..peers.len()
        invariant
            all == peers@.map_values(|item: Json| item@),
            metadata@ == peers_metadata(all.take(i as int), mode, ids@),
    {
        assert(all.take(i + 1).drop_last() =~= all.take(i as int));
        assert(all.take(i + 1).last() == peers@[i as int]@);
        if let Some(peer) = read_peer_entry(&peers[i]) {
            if let Some(told_here) = peer_entry_metadata(&peer) {
                let contact_ids = peer_cache_entry_contact_ids(&peer, mode, ids);
                let ghost before = metadata@;
                let ghost names = texts(contact_ids@);
                assert(told_each(before, names.take(0), told_here@) == before);
                for k in 0..contact_ids.len()
                    invariant
                        names == texts(contact_ids@),
                        metadata@ == told_each(before, names.take(k as int), told_here@),
                {
                    assert(names.take(k + 1).drop_last() =~= names.take(k as int));
                    assert(names.take(k + 1).last() == contact_ids@[k as int]@);
                    merge_peer_metadata(&mut metadata, contact_ids[k].clone(), told_here.copy());
                }
                assert(names.take(names.len() as int) =~= names);
            }
        }
    }
    assert(all.take(all.len() as int) =~= all);
    metadata
}

/// What the text of a peer cache file tells, where there is a file.
pub fn read_telegram_peer_metadata_from_account_with(
    raw: Option<&str>,
    mode: TelegramPeerMetadataIdMode,
    ids: &TextMap<String>,
) -> (r: TextMap<TelegramPeerMetadata>)
    ensures
        r@ == file_metadata(opt_str(raw), mode, ids@),
{
    match raw {
        Some(text) => match parse_json(text) {
            Some(cache) => peer_metadata_from_cache(&cache, mode, ids),
            None => TextMap::new(),
        },
        None => TextMap::new(),
    }
}

/// What an account tells of its contacts under all their ids.
pub fn read_telegram_peer_metadata_from_account(raw: Option<&str>, ids: &TextMap<String>) -> (r:
    TextMap<TelegramPeerMetadata>)
    ensures
        r@ == file_metadata(opt_str(raw), TelegramPeerMetadataIdMode::Aliases, ids@),
{
    read_telegram_peer_metadata_from_account_with(raw, TelegramPeerMetadataIdMode::Aliases, ids)
}

/// What an account tells of its contacts under their first ids.
pub fn read_telegram_primary_peer_metadata_from_account(
    raw: Option<&str>,
    ids: &TextMap<String>,
) -> (r: TextMap<TelegramPeerMetadata>)
    ensures
        r@ == file_metadata(opt_str(raw), TelegramPeerMetadataIdMode::Primary, ids@),
{
    read_telegram_peer_metadata_from_account_with(raw, TelegramPeerMetadataIdMode::Primary, ids)
}

/// What is known after a whole account told of its contacts.
pub open spec fn account_told() -> spec_fn(Seq<char>, Option<MetadataView>, MetadataView) -> Option<
    MetadataView,
> {
    |id: Seq<char>, existing: Option<MetadataView>, told_here: MetadataView|
        Some(
            merged_metadata(
                match existing {
                    Some(existing) => existing,
                    None => no_metadata(),
                },
                told_here,
            ),
        )
}

/// What several accounts tell together.
pub open spec fn accounts_metadata(
    accounts: Seq<Map<Seq<char>, MetadataView>>,
) -> Map<Seq<char>, MetadataView>
    decreases accounts.len(),
{
    if accounts.len() == 0 {
        Map::empty()
    } else {
        merged_map(accounts_metadata(accounts.drop_last()), accounts.last(), account_told())
    }
}

/// Takes in what an account tells of its contacts.
fn merge_account(
    metadata: &mut TextMap<TelegramPeerMetadata>,
    account: TextMap<TelegramPeerMetadata>,
)
    ensures
        final(metadata)@ == merged_map(old(metadata)@, account@, account_told()),
{
    let entries = account.into_entries();
    let ghost list = entry_list(entries@);
    let ghost all = entries@;
    proof {
        lemma_merged_none(metadata@, account_told());
        assert(list.take(0) =~= Seq::empty());
    }
    for entry in it: entries
        invariant
            it.seq() == all,
            list == entry_list(all),
            distinct_keys(list),
            metadata@ == merged_map(
                old(metadata)@,
                map_of(list.take(it.index())),
                account_told(),
            ),
    {
        proof {
            lemma_merged_step(old(metadata)@, list, it.index(), account_told());
        }
        merge_peer_metadata(metadata, entry.key, entry.value);
    }
    assert(list.take(list.len() as int) =~= list);
}

/// What several accounts tell of their contacts.
pub fn read_telegram_peer_metadata(accounts: Vec<TextMap<TelegramPeerMetadata>>) -> (r: TextMap<
    TelegramPeerMetadata,
>)
    ensures
        r@ == accounts_metadata(views(accounts@)),
{
    let ghost all = views(accounts@);
    let mut metadata: TextMap<TelegramPeerMetadata> = TextMap::new();
    for account in it: accounts
        invariant
            views(it.seq()) == all,
            metadata@ == accounts_metadata(all.take(it.index())),
    {
        proof {
            assert(all.take(it.index() + 1).drop_last() =~= all.take(it.index()));
            assert(all.take(it.index() + 1).last() == account@);
        }
        merge_account(&mut metadata, account);
    }
    assert(all.take(all.len() as int) =~= all);
    metadata
}

/// The names in what is known.
pub open spec fn known_names(metadata: Map<Seq<char>, MetadataView>) -> Map<Seq<char>, Seq<char>> {
    Map::new(
        |k: Seq<char>| metadata.contains_key(k) && metadata[k].name is Some,
        |k: Seq<char>| metadata[k].name->0,
    )
}

/// The avatars in what is known.
pub open spec fn known_avatars(metadata: Map<Seq<char>, MetadataView>) -> Map<
    Seq<char>,
    Seq<char>,
> {
    Map::new(
        |k: Seq<char>| metadata.contains_key(k) && metadata[k].avatar is Some,
        |k: Seq<char>| metadata[k].avatar->0,
    )
}

spec fn name_told() -> spec_fn(Seq<char>, Option<Seq<char>>, MetadataView) -> Option<Seq<char>> {
    |id: Seq<char>, existing: Option<Seq<char>>, metadata: MetadataView| metadata.name
}

spec fn avatar_told() -> spec_fn(Seq<char>, Option<Seq<char>>, MetadataView) -> Option<Seq<char>> {
    |id: Seq<char>, existing: Option<Seq<char>>, metadata: MetadataView| metadata.avatar
}

/// The display names of peers, under the ids that they are known under.
pub fn read_telegram_peer_names(metadata: &TextMap<TelegramPeerMetadata>) -> (r: TextMap<String>)
    ensures
        r@ == known_names(metadata@),
{
    let entries = metadata.entries();
    let ghost list = entry_list(entries@);
    let ghost none = Map::<Seq<char>, Seq<char>>::empty();
    let mut names: TextMap<String> = TextMap::new();
    proof {
        lemma_merged_none(none, name_told());
        assert(list.take(0) =~= Seq::empty());
    }
    for i in 0..entries.len()
        invariant
            list == entry_list(entries@),
            distinct_keys(list),
            names@ == merged_map(
                Map::<Seq<char>, Seq<char>>::empty(),
                map_of(list.take(i as int)),
                name_told(),
            ),
    {
        proof {
            lemma_merged_step(
                Map::<Seq<char>, Seq<char>>::empty(),
                list,
                i as int,
                name_told(),
            );
        }
        if let Some(name) = &entries[i].value.name {
            names.insert(entries[i].key.clone(), name.clone());
        }
    }
    assert(list.take(list.len() as int) =~= list);
    assert(names@ =~= known_names(metadata@));
    names
}

/// The avatars of peers, under the ids that they are known under.
pub fn read_telegram_peer_avatars(metadata: &TextMap<TelegramPeerMetadata>) -> (r: TextMap<String>)
    ensures
        r@ == known_avatars(metadata@),
{
    let entries = metadata.entries();
    let ghost list = entry_list(entries@);
    let ghost none = Map::<Seq<char>, Seq<char>>::empty();
    let mut avatars: TextMap<String> = TextMap::new();
    proof {
        lemma_merged_none(none, avatar_told());
        assert(list.take(0) =~= Seq::empty());
    }
    for i in 0..entries.len()
        invariant
            list == entry_list(entries@),
            distinct_keys(list),
            avatars@ == merged_map(
                Map::<Seq<char>, Seq<char>>::empty(),
                map_of(list.take(i as int)),
                avatar_told(),
            ),
    {
        proof {
            lemma_merged_step(
                Map::<Seq<char>, Seq<char>>::empty(),
                list,
                i as int,
                avatar_told(),
            );
        }
        if let Some(avatar) = &entries[i].value.avatar {
            avatars.insert(entries[i].key.clone(), avatar.clone());
        }
    }
    assert(list.take(list.len() as int) =~= list);
    assert(avatars@ =~= known_avatars(metadata@));
    avatars
}

/// The ids of a cached peer before they are normalized.
pub open spec fn entry_raw_ids(peer: EntryView) -> Seq<Seq<char>> {
    let named = entry_handles(peer).map_values(|username: Seq<char>| named_id(username));
    if peer.numeric_id > 0 {
        seq![numbered_id(peer.numeric_id as int)] + named
    } else {
        named
    }
}

/// The ids of a list of cached peers before they are normalized.
pub open spec fn peers_raw_ids(peers: Seq<JsonView>) -> Seq<Seq<char>>
    decreases peers.len(),
{
    if peers.len() == 0 {
        Seq::empty()
    } else {
        let before = peers_raw_ids(peers.drop_last());
        match entry_in(peers.last()) {
            Some(peer) => before + entry_raw_ids(peer),
            None => before,
        }
    }
}

/// The ids in a cache before they are normalized.
pub open spec fn cache_raw_ids(cache: JsonView) -> Seq<Seq<char>> {
    match cache.member("peers"@) {
        Some(peers) => match peers.items() {
            Some(items) => peers_raw_ids(items),
            None => Seq::empty(),
        },
        None => Seq::empty(),
    }
}

/// Lists the ids in a parsed peer cache, each before it is normalized.
pub fn peer_cache_raw_ids(cache: &Json) -> (r: Vec<String>)
    ensures
        texts(r@) == cache_raw_ids(cache@),
{
    let mut out: Vec<String> = Vec::new();
    assert(texts(out@) =~= Seq::<Seq<char>>::empty());
    let peers = match cache.get("peers") {
        Some(peers) => match peers.as_array() {
            Some(peers) => peers,
            None => return out,
        },
        None => return out,
    };
    let ghost all = peers@.map_values(|item: Json| item@);
    for i in 0..peers.len()
        invariant
            all == peers@.map_values(|item: Json| item@),
            texts(out@) == peers_raw_ids(all.take(i as int)),
    {
        assert(all.take(i + 1).drop_last() =~= all.take(i as int));
        assert(all.take(i + 1).last() == peers@[i as int]@);
        if let Some(peer) = read_peer_entry(&peers[i]) {
            let ghost start = texts(out@);
            if peer.numeric_id > 0 {
                out.push(numbered_contact_id(peer.numeric_id));
                assert(texts(out@) =~= start.push(numbered_id(peer.numeric_id as int)));
            }
            let ghost middle = texts(out@);
            let usernames = peer_cache_entry_usernames(&peer);
            let ghost named = entry_handles(peer@).map_values(
                |username: Seq<char>| named_id(username),
            );
            assert(middle =~= middle + named.take(0));
            assert(texts(usernames@).len() == usernames@.len());
            for k in 0..usernames.len()
                invariant
                    texts(usernames@) == entry_handles(peer@),
                    usernames@.len() == named.len(),
                    named == entry_handles(peer@).map_values(
                        |username: Seq<char>| named_id(username),
                    ),
                    texts(out@) == middle + named.take(k as int),
            {
                assert(entry_handles(peer@)[k as int] == usernames@[k as int]@);
                let ghost before = texts(out@);
                out.push(named_contact_id(usernames[k].as_str()));
                assert(texts(out@) =~= before.push(named[k as int]));
                assert(named.take(k + 1) =~= named.take(k as int).push(named[k as int]));
                assert(texts(out@) =~= middle + named.take(k + 1));
            }
            assert(named.take(named.len() as int) =~= named);
            assert(texts(out@) =~= start + entry_raw_ids(peer@));
        }
    }
    assert(all.take(all.len() as int) =~= all);
    out
}

/// The ids that a peer is known under depend on the normalized forms of its own ids alone.
pub proof fn law_ids_of_peer(
    peer: EntryView,
    mode: TelegramPeerMetadataIdMode,
    a: Map<Seq<char>, Seq<char>>,
    b: Map<Seq<char>, Seq<char>>,
)
    requires
        forall|i: int|
            0 <= i < entry_raw_ids(peer).len() ==> lookup(a, #[trigger] entry_raw_ids(peer)[i])
                == lookup(b, entry_raw_ids(peer)[i]),
    ensures
        entry_ids(peer, mode, a) == entry_ids(peer, mode, b),
{
    let raw = entry_raw_ids(peer);
    let handles = entry_handles(peer);
    if peer.numeric_id > 0 {
        assert(raw[0] == numbered_id(peer.numeric_id as int));
    }
    assert forall|i: int| 0 <= i < handles.len() implies lookup(
        a,
        named_id(#[trigger] handles[i]),
    ) == lookup(b, named_id(handles[i])) by {
        let k = if peer.numeric_id > 0 {
            i + 1
        } else {
            i
        };
        assert(raw[k] == named_id(handles[i]));
    }
    let numbered = if peer.numeric_id > 0 {
        lookup(a, numbered_id(peer.numeric_id as int))
    } else {
        None
    };
    let list = match numbered {
        Some(id) => seq![id],
        None => Seq::empty(),
    };
    lemma_named_ids_agree(list, handles, a, b);
}

proof fn lemma_named_ids_agree(
    list: Seq<Seq<char>>,
    usernames: Seq<Seq<char>>,
    a: Map<Seq<char>, Seq<char>>,
    b: Map<Seq<char>, Seq<char>>,
)
    requires
        forall|i: int|
            0 <= i < usernames.len() ==> lookup(a, named_id(#[trigger] usernames[i])) == lookup(
                b,
                named_id(usernames[i]),
            ),
    ensures
        with_named_ids(list, usernames, a) == with_named_ids(list, usernames, b),
    decreases usernames.len(),
{
    if usernames.len() > 0 {
        let rest = usernames.drop_last();
        assert forall|i: int| 0 <= i < rest.len() implies lookup(a, named_id(#[trigger] rest[i]))
            == lookup(b, named_id(rest[i])) by {
            assert(rest[i] == usernames[i]);
        }
        lemma_named_ids_agree(list, rest, a, b);
        assert(usernames[usernames.len() - 1] == usernames.last());
    }
}

/// Being told the same thing again changes nothing, and the last message is never set back.
pub proof fn law_told_again(existing: MetadataView, told_here: MetadataView)
    ensures
        merged_metadata(merged_metadata(existing, told_here), told_here) == merged_metadata(
            existing,
            told_here,
        ),
        existing.avatar is Some ==> merged_metadata(existing, told_here).avatar == existing.avatar,
        existing.public_username is Some ==> merged_metadata(existing, told_here).public_username
            == existing.public_username,
        match (
            existing.last_message_at_ms,
            merged_metadata(existing, told_here).last_message_at_ms,
        ) {
            (Some(a), Some(b)) => a <= b,
            (Some(_), None) => false,
            (None, _) => true,
        },
{
}

/// Bots, groups and channels tell nothing.
pub proof fn law_only_people_are_known(peer: EntryView)
    ensures
        entry_metadata(peer) is Some ==> peer.kind == "user"@ && !peer.is_bot,
{
}

proof fn lemma_ids_of_peers(
    peers: Seq<JsonView>,
    mode: TelegramPeerMetadataIdMode,
    a: Map<Seq<char>, Seq<char>>,
    b: Map<Seq<char>, Seq<char>>,
)
    requires
        forall|i: int|
            0 <= i < peers_raw_ids(peers).len() ==> lookup(a, #[trigger] peers_raw_ids(peers)[i])
                == lookup(b, peers_raw_ids(peers)[i]),
    ensures
        peers_metadata(peers, mode, a) == peers_metadata(peers, mode, b),
    decreases peers.len(),
{
    if peers.len() > 0 {
        let rest = peers.drop_last();
        let raw = peers_raw_ids(peers);
        let before = peers_raw_ids(rest);
        assert forall|i: int| 0 <= i < before.len() implies lookup(a, #[trigger] before[i])
            == lookup(b, before[i]) by {
            assert(raw[i] == before[i]);
        }
        lemma_ids_of_peers(rest, mode, a, b);
        if let Some(peer) = entry_in(peers.last()) {
            let own_ids = entry_raw_ids(peer);
            assert forall|i: int| 0 <= i < own_ids.len() implies lookup(a, #[trigger] own_ids[i])
                == lookup(b, own_ids[i]) by {
                assert(raw[before.len() + i] == own_ids[i]);
            }
            law_ids_of_peer(peer, mode, a, b);
        }
    }
}

/// What a cache tells depends on the normalized forms of the ids in it alone.
pub proof fn law_ids_of_cache(
    cache: JsonView,
    mode: TelegramPeerMetadataIdMode,
    a: Map<Seq<char>, Seq<char>>,
    b: Map<Seq<char>, Seq<char>>,
)
    requires
        forall|i: int|
            0 <= i < cache_raw_ids(cache).len() ==> lookup(a, #[trigger] cache_raw_ids(cache)[i])
                == lookup(b, cache_raw_ids(cache)[i]),
    ensures
        cache_metadata(Some(cache), mode, a) == cache_metadata(Some(cache), mode, b),
{
    if let Some(peers) = cache.member("peers"@) {
        if let Some(items) = peers.items() {
            let raw = cache_raw_ids(cache);
            assert(raw == peers_raw_ids(items));
            assert forall|i: int| 0 <= i < peers_raw_ids(items).len() implies lookup(
                a,
                #[trigger] peers_raw_ids(items)[i],
            ) == lookup(b, peers_raw_ids(items)[i]) by {
                assert(lookup(a, raw[i]) == lookup(b, raw[i]));
            }
            lemma_ids_of_peers(items, mode, a, b);
        }
    }
}

/// No username that is known of a contact has a leading `@`.
pub open spec fn bare_usernames(known: Map<Seq<char>, MetadataView>) -> bool {
    forall|id: Seq<char>| #[trigger]
        known.contains_key(id) ==> is_bare(known[id].public_username)
}

proof fn lemma_told_each_bare(
    known: Map<Seq<char>, MetadataView>,
    ids: Seq<Seq<char>>,
    metadata: MetadataView,
)
    requires
        bare_usernames(known),
    ensures
        bare_usernames(told_each(known, ids, metadata)),
    decreases ids.len(),
{
    if ids.len() > 0 {
        lemma_told_each_bare(known, ids.drop_last(), metadata);
        let before = told_each(known, ids.drop_last(), metadata);
        let existing = match lookup(before, ids.last()) {
            Some(existing) => existing,
            None => no_metadata(),
        };
        law_usernames_are_bare(ids.last(), existing.public_username, metadata.public_username);
    }
}

proof fn lemma_peers_bare(
    peers: Seq<JsonView>,
    mode: TelegramPeerMetadataIdMode,
    ids: Map<Seq<char>, Seq<char>>,
)
    ensures
        bare_usernames(peers_metadata(peers, mode, ids)),
    decreases peers.len(),
{
    if peers.len() > 0 {
        let before = peers_metadata(peers.drop_last(), mode, ids);
        lemma_peers_bare(peers.drop_last(), mode, ids);
        if let Some(peer) = entry_in(peers.last()) {
            if let Some(metadata) = entry_metadata(peer) {
                lemma_told_each_bare(before, entry_ids(peer, mode, ids), metadata);
            }
        }
    }
}

/// What the text of a cache file tells holds no username with a leading `@`.
pub proof fn law_known_usernames(
    raw: Option<Seq<char>>,
    mode: TelegramPeerMetadataIdMode,
    ids: Map<Seq<char>, Seq<char>>,
)
    ensures
        bare_usernames(file_metadata(raw, mode, ids)),
{
    if let Some(text) = raw {
        if let Some(cache) = parsed_json(text) {
            if let Some(peers) = cache.member("peers"@) {
                if let Some(items) = peers.items() {
                    lemma_peers_bare(items, mode, ids);
                }
            }
        }
    }
}

/// Where the fields of a cached peer stand: in an object under their names, in an array at their
/// positions, and in any other value nowhere.
pub proof fn law_where_fields_stand(
    members: Seq<(Seq<char>, JsonView)>,
    items: Seq<JsonView>,
    text: Seq<char>,
    key: Seq<char>,
    position: int,
)
    requires
        0 <= position,
    ensures
        field(JsonView::Object(members), key, position) == JsonView::Object(members).member(key),
        position < items.len() ==> field(JsonView::Array(items), key, position) == Some(
            items[position],
        ),
        position >= items.len() ==> field(JsonView::Array(items), key, position) is None,
        field(JsonView::Text(text), key, position) is None,
        field(JsonView::Null, key, position) is None,
{
}

/// A field that may hold no text is not there, is `null`, or is a text.
pub open spec fn may_hold_text(value: Option<JsonView>) -> bool {
    value is None || value == Some(JsonView::Null) || value->0 is Text
}

/// What a field that may hold no text holds.
pub open spec fn holds(value: Option<JsonView>, text: Option<Seq<char>>) -> bool {
    &&& text is None ==> value is None || value == Some(JsonView::Null)
    &&& text is Some ==> value == Some(JsonView::Text(text->0))
}

/// When a value is a cached peer: it is an object, or an array of at most ten values, and each field
/// that is there is of its kind.
pub proof fn law_which_values_are_peers(value: JsonView)
    ensures
        entry_in(value) is Some <==> {
            let number = field(value, "numeric_id"@, 0);
            let kind = field(value, "kind"@, 1);
            let names = field(value, "usernames"@, 4);
            let bot = field(value, "is_bot"@, 8);
            let time = field(value, "last_message_at_ms"@, 9);
            &&& value is Object || (value is Array && value->Array_0.len() <= 10)
            &&& number is Some ==> number->0.signed() is Some
            &&& kind is Some ==> kind->0 is Text
            &&& may_hold_text(field(value, "title"@, 2))
            &&& may_hold_text(field(value, "username"@, 3))
            &&& names is Some ==> names->0 is Array && forall|i: int|
                0 <= i < names->0->Array_0.len() ==> (#[trigger] names->0->Array_0[i]) is Text
            &&& may_hold_text(field(value, "first_name"@, 5))
            &&& may_hold_text(field(value, "last_name"@, 6))
            &&& may_hold_text(field(value, "avatar"@, 7))
            &&& bot is Some ==> bot->0 is Bool
            &&& time is Some ==> time->0 is Null || time->0.signed() is Some
                || time->0.unsigned() is Some
        },
{
    let names = field(value, "usernames"@, 4);
    if names is Some && names->0 is Array {
        let items = names->0->Array_0;
        assert(names->0.items() == Some(items));
        if all_texts(items) {
            assert forall|i: int| 0 <= i < items.len() implies (#[trigger] items[i]) is Text by {
                assert(items[i].text() is Some);
            }
        }
    }
}

/// What a cached peer holds: each field as it stands, and where it does not stand zero, an empty text
/// or list, no text, no time, or false.
pub proof fn law_peer_fields(value: JsonView)
    requires
        entry_in(value) is Some,
    ensures
        ({
            let peer = entry_in(value)->0;
            let number = field(value, "numeric_id"@, 0);
            let kind = field(value, "kind"@, 1);
            let names = field(value, "usernames"@, 4);
            let bot = field(value, "is_bot"@, 8);
            let time = field(value, "last_message_at_ms"@, 9);
            &&& number is None ==> peer.numeric_id == 0
            &&& number is Some ==> number->0.signed() == Some(peer.numeric_id)
            &&& kind is None ==> peer.kind.len() == 0
            &&& kind is Some ==> kind->0 == JsonView::Text(peer.kind)
            &&& holds(field(value, "title"@, 2), peer.title)
            &&& holds(field(value, "username"@, 3), peer.username)
            &&& holds(field(value, "first_name"@, 5), peer.first_name)
            &&& holds(field(value, "last_name"@, 6), peer.last_name)
            &&& holds(field(value, "avatar"@, 7), peer.avatar)
            &&& names is None ==> peer.usernames.len() == 0
            &&& names is Some ==> names->0->Array_0.len() == peer.usernames.len() && forall|i: int|
                0 <= i < peer.usernames.len() ==> names->0->Array_0[i] == JsonView::Text(
                    #[trigger] peer.usernames[i],
                )
            &&& bot is None ==> !peer.is_bot
            &&& bot is Some ==> bot->0 == JsonView::Bool(peer.is_bot)
            &&& time is None || time->0 is Null ==> peer.last_message_at_ms is None
            &&& time is Some && time->0.signed() is Some ==> peer.last_message_at_ms is Some
                && peer.last_message_at_ms->0 == time->0.signed()->0
            &&& time is Some && time->0.signed() is None && time->0.unsigned() is Some
                ==> peer.last_message_at_ms is Some && peer.last_message_at_ms->0
                == time->0.unsigned()->0
        }),
{
    let peer = entry_in(value)->0;
    let names = field(value, "usernames"@, 4);
    if names is Some {
        let items = names->0->Array_0;
        assert(names->0.items() == Some(items));
        assert forall|i: int| 0 <= i < peer.usernames.len() implies items[i] == JsonView::Text(
            #[trigger] peer.usernames[i],
        ) by {
            assert(items[i].text() is Some);
        }
    }
}

/// A cached peer is named by its title, by its first and last name where it has no title, and where it
/// has both by the fuller of the two.
pub proof fn law_peer_name(peer: EntryView)
    ensures
        ({
            let title = cleaned(peer.title);
            let full = full_name(
                if peer.first_name is Some {
                    peer.first_name->0
                } else {
                    Seq::empty()
                },
                peer.last_name,
            );
            &&& title is None ==> entry_name(peer) == full
            &&& full is None ==> entry_name(peer) == title
            &&& title is Some && full is Some && fuller_telegram_name(title, full->0)
                ==> entry_name(peer) == full
            &&& title is Some && full is Some && !fuller_telegram_name(title, full->0)
                ==> entry_name(peer) == title
        }),
{
}

proof fn lemma_handles(list: Seq<Seq<char>>, values: Seq<Seq<char>>, handle: Seq<char>)
    requires
        ascending(list),
    ensures
        ascending(with_handles(list, values)),
        with_handles(list, values).contains(handle) <==> list.contains(handle) || exists|i: int|
            0 <= i < values.len() && public_username(#[trigger] values[i]) == Some(handle),
    decreases values.len(),
{
    if values.len() > 0 {
        let rest = values.drop_last();
        lemma_handles(list, rest, handle);
        let before = with_handles(list, rest);
        if let Some(value) = public_username(values.last()) {
            law_insert_text(before, value);
        }
        assert(forall|k: int| 0 <= k < rest.len() ==> #[trigger] values[k] == rest[k]);
        assert(values[values.len() - 1] == values.last());
    }
}

/// The usernames of a cached peer are those that it holds, cleaned, each once and in ascending order.
/// It is known by the least.
pub proof fn law_peer_handles(peer: EntryView, handle: Seq<char>)
    ensures
        ascending(entry_handles(peer)),
        entry_handles(peer).contains(handle) <==> (peer.username is Some && public_username(
            peer.username->0,
        ) == Some(handle)) || exists|i: int|
            0 <= i < peer.usernames.len() && public_username(#[trigger] peer.usernames[i]) == Some(
                handle,
            ),
        entry_handles(peer).contains(handle) ==> entry_username(peer) is Some && (
        entry_username(peer)->0 == handle || text_less(entry_username(peer)->0, handle)),
        entry_username(peer) is Some ==> entry_handles(peer).contains(entry_username(peer)->0),
{
    let none = Seq::<Seq<char>>::empty();
    let start = match peer.username {
        Some(username) => with_handles(none, seq![username]),
        None => none,
    };
    if let Some(username) = peer.username {
        lemma_handles(none, seq![username], handle);
        assert(seq![username][0] == username);
    }
    lemma_handles(start, peer.usernames, handle);
    let handles = entry_handles(peer);
    if handles.contains(handle) {
        let k = choose|k: int| 0 <= k < handles.len() && handles[k] == handle;
        if k > 0 {
            assert(text_less(handles[0], handles[k]));
        }
    }
    if handles.len() > 0 {
        assert(handles.contains(handles[0]));
    }
}

proof fn lemma_named_ids(
    list: Seq<Seq<char>>,
    usernames: Seq<Seq<char>>,
    ids: Map<Seq<char>, Seq<char>>,
    id: Seq<char>,
)
    requires
        ascending(list),
    ensures
        ascending(with_named_ids(list, usernames, ids)),
        with_named_ids(list, usernames, ids).contains(id) <==> list.contains(id) || exists|i: int|
            0 <= i < usernames.len() && lookup(ids, "telegram@"@ + #[trigger] usernames[i]) == Some(
                id,
            ),
    decreases usernames.len(),
{
    if usernames.len() > 0 {
        let rest = usernames.drop_last();
        lemma_named_ids(list, rest, ids, id);
        let before = with_named_ids(list, rest, ids);
        if let Some(value) = lookup(ids, named_id(usernames.last())) {
            law_insert_text(before, value);
        }
        assert(forall|k: int| 0 <= k < rest.len() ==> #[trigger] usernames[k] == rest[k]);
        assert(usernames[usernames.len() - 1] == usernames.last());
    }
}

/// One of the usernames of a cached peer leads to this id.
pub open spec fn leads_by_name(
    peer: EntryView,
    ids: Map<Seq<char>, Seq<char>>,
    id: Seq<char>,
) -> bool {
    exists|i: int|
        0 <= i < entry_handles(peer).len() && lookup(
            ids,
            "telegram@"@ + #[trigger] entry_handles(peer)[i],
        ) == Some(id)
}

/// A cached peer with a number is known under it, and under its usernames where aliases are wanted.
/// One without is known under its usernames in either case. Each id stands once, in ascending order.
pub proof fn law_peer_ids(
    peer: EntryView,
    mode: TelegramPeerMetadataIdMode,
    ids: Map<Seq<char>, Seq<char>>,
    id: Seq<char>,
)
    ensures
        ({
            let number = lookup(ids, "telegram-user-id@"@ + decimal(peer.numeric_id as int));
            let numbered = peer.numeric_id > 0 && number is Some;
            let known = entry_ids(peer, mode, ids);
            &&& ascending(known)
            &&& numbered && mode == TelegramPeerMetadataIdMode::Primary ==> known == seq![number->0]
            &&& numbered && mode == TelegramPeerMetadataIdMode::Aliases ==> (known.contains(id)
                <==> number == Some(id) || leads_by_name(peer, ids, id))
            &&& !numbered ==> (known.contains(id) <==> leads_by_name(peer, ids, id))
        }),
{
    let numbered = if peer.numeric_id > 0 {
        lookup(ids, numbered_id(peer.numeric_id as int))
    } else {
        None
    };
    let list = match numbered {
        Some(id) => seq![id],
        None => Seq::empty(),
    };
    assert(ascending(list));
    lemma_named_ids(list, entry_handles(peer), ids, id);
    if let Some(number) = numbered {
        assert(list[0] == number);
    }
}

/// A cached peer tells something exactly where it is a person with a name, a username, an avatar or a
/// last message. It tells these and nothing else.
pub proof fn law_peer_tells(peer: EntryView)
    ensures
        entry_metadata(peer) is Some <==> peer.kind == "user"@ && !peer.is_bot && (entry_name(
            peer,
        ) is Some || entry_username(peer) is Some || cleaned(peer.avatar) is Some
            || peer.last_message_at_ms is Some),
        entry_metadata(peer) is Some ==> {
            let told_here = entry_metadata(peer)->0;
            &&& told_here.name == entry_name(peer)
            &&& told_here.public_username == entry_username(peer)
            &&& told_here.avatar == cleaned(peer.avatar)
            &&& told_here.last_message_at_ms == peer.last_message_at_ms
        },
{
}

/// What is told of a contact fills gaps. A fuller name and a later message replace what was known, a
/// username and an avatar do not.
pub proof fn law_metadata_merges(existing: MetadataView, told_here: MetadataView)
    ensures
        ({
            let now = merged_metadata(existing, told_here);
            &&& told_here.name is None ==> now.name == existing.name
            &&& told_here.name is Some && existing.name is None ==> now.name == told_here.name
            &&& told_here.name is Some && fuller_telegram_name(existing.name, told_here.name->0)
                ==> now.name == told_here.name
            &&& told_here.name is Some && !fuller_telegram_name(existing.name, told_here.name->0)
                ==> now.name == existing.name
            &&& existing.avatar is Some ==> now.avatar == existing.avatar
            &&& existing.avatar is None ==> now.avatar == told_here.avatar
            &&& existing.public_username is Some ==> now.public_username
                == existing.public_username
            &&& existing.public_username is None && told_here.public_username is None
                ==> now.public_username is None
            &&& existing.public_username is None && told_here.public_username is Some
                ==> now.public_username == public_username(told_here.public_username->0)
            &&& existing.last_message_at_ms is None ==> now.last_message_at_ms
                == told_here.last_message_at_ms
            &&& told_here.last_message_at_ms is None ==> now.last_message_at_ms
                == existing.last_message_at_ms
            &&& existing.last_message_at_ms is Some && told_here.last_message_at_ms is Some
                ==> now.last_message_at_ms is Some && now.last_message_at_ms->0
                == vstd::math::max(
                existing.last_message_at_ms->0 as int,
                told_here.last_message_at_ms->0 as int,
            )
        }),
{
}

/// What is known of a contact, or nothing.
pub open spec fn known_of(known: Map<Seq<char>, MetadataView>, id: Seq<char>) -> MetadataView {
    if known.contains_key(id) {
        known[id]
    } else {
        MetadataView { name: None, public_username: None, avatar: None, last_message_at_ms: None }
    }
}

/// What is told of several contacts counts for each of them once, and for no other.
pub proof fn law_told_each(
    known: Map<Seq<char>, MetadataView>,
    ids: Seq<Seq<char>>,
    metadata: MetadataView,
    id: Seq<char>,
)
    ensures
        ({
            let now = told_each(known, ids, metadata);
            &&& now.contains_key(id) <==> known.contains_key(id) || ids.contains(id)
            &&& ids.contains(id) ==> now[id] == merged_metadata(known_of(known, id), metadata)
            &&& !ids.contains(id) && known.contains_key(id) ==> now[id] == known[id]
        }),
    decreases ids.len(),
{
    if ids.len() > 0 {
        let rest = ids.drop_last();
        law_told_each(known, rest, metadata, id);
        law_told_again(known_of(known, id), metadata);
        assert(forall|k: int| 0 <= k < rest.len() ==> #[trigger] ids[k] == rest[k]);
        assert(ids[ids.len() - 1] == ids.last());
        if rest.contains(id) {
            let k = choose|k: int| 0 <= k < rest.len() && rest[k] == id;
            assert(ids[k] == id);
        }
    }
}

/// A value is a cached peer that tells something of this contact.
pub open spec fn tells_of(
    value: JsonView,
    mode: TelegramPeerMetadataIdMode,
    ids: Map<Seq<char>, Seq<char>>,
    id: Seq<char>,
) -> bool {
    &&& entry_in(value) is Some
    &&& entry_metadata(entry_in(value)->0) is Some
    &&& entry_ids(entry_in(value)->0, mode, ids).contains(id)
}

/// A contact is known exactly where one of the cached peers tells of it. A peer more is merged after
/// the others, and changes nothing of the contacts that it does not tell of.
pub proof fn law_peers_tell(
    peers: Seq<JsonView>,
    more: JsonView,
    mode: TelegramPeerMetadataIdMode,
    ids: Map<Seq<char>, Seq<char>>,
    id: Seq<char>,
)
    ensures
        ({
            let known = peers_metadata(peers, mode, ids);
            let now = peers_metadata(peers.push(more), mode, ids);
            &&& known.contains_key(id) <==> exists|i: int|
                0 <= i < peers.len() && tells_of(#[trigger] peers[i], mode, ids, id)
            &&& tells_of(more, mode, ids, id) ==> now.contains_key(id) && now[id]
                == merged_metadata(known_of(known, id), entry_metadata(entry_in(more)->0)->0)
            &&& !tells_of(more, mode, ids, id) ==> lookup(now, id) == lookup(known, id)
        }),
    decreases peers.len(),
{
    assert(peers.push(more).drop_last() =~= peers);
    let known = peers_metadata(peers, mode, ids);
    if let Some(peer) = entry_in(more) {
        if let Some(metadata) = entry_metadata(peer) {
            law_told_each(known, entry_ids(peer, mode, ids), metadata, id);
        }
    }
    if peers.len() > 0 {
        let rest = peers.drop_last();
        law_peers_tell(rest, peers.last(), mode, ids, id);
        assert(rest.push(peers.last()) =~= peers);
        assert(forall|k: int| 0 <= k < rest.len() ==> #[trigger] peers[k] == rest[k]);
        assert(peers[peers.len() - 1] == peers.last());
    }
}

/// A cache file tells what its list of peers tells. Without a file, or where the text is no JSON or
/// holds no such list, nothing is known.
pub proof fn law_files_tell(
    text: Seq<char>,
    mode: TelegramPeerMetadataIdMode,
    ids: Map<Seq<char>, Seq<char>>,
)
    ensures
        file_metadata(None, mode, ids) == Map::<Seq<char>, MetadataView>::empty(),
        match parsed_json(text) {
            Some(JsonView::Object(members)) => match JsonView::Object(members).member("peers"@) {
                Some(JsonView::Array(items)) => file_metadata(Some(text), mode, ids)
                    == peers_metadata(items, mode, ids) && cache_raw_ids(JsonView::Object(members))
                    == peers_raw_ids(items),
                _ => file_metadata(Some(text), mode, ids) == Map::<
                    Seq<char>,
                    MetadataView,
                >::empty() && cache_raw_ids(JsonView::Object(members)).len() == 0,
            },
            _ => file_metadata(Some(text), mode, ids) == Map::<Seq<char>, MetadataView>::empty(),
        },
{
}

/// A contact is known exactly where one of the accounts knows it. What an account more tells of it is
/// merged after the others.
pub proof fn law_accounts_tell(
    accounts: Seq<Map<Seq<char>, MetadataView>>,
    more: Map<Seq<char>, MetadataView>,
    id: Seq<char>,
)
    ensures
        ({
            let known = accounts_metadata(accounts);
            let now = accounts_metadata(accounts.push(more));
            &&& known.contains_key(id) <==> exists|i: int|
                0 <= i < accounts.len() && (#[trigger] accounts[i]).contains_key(id)
            &&& more.contains_key(id) ==> now.contains_key(id) && now[id] == merged_metadata(
                known_of(known, id),
                more[id],
            )
            &&& !more.contains_key(id) ==> lookup(now, id) == lookup(known, id)
        }),
    decreases accounts.len(),
{
    assert(accounts.push(more).drop_last() =~= accounts);
    if accounts.len() > 0 {
        let rest = accounts.drop_last();
        law_accounts_tell(rest, accounts.last(), id);
        assert(rest.push(accounts.last()) =~= accounts);
        assert(forall|k: int| 0 <= k < rest.len() ==> #[trigger] accounts[k] == rest[k]);
        assert(accounts[accounts.len() - 1] == accounts.last());
    }
}

/// Under an id stands the name, or the avatar, that is known of the contact, and nothing where there
/// is none.
pub proof fn law_names_and_avatars(known: Map<Seq<char>, MetadataView>, id: Seq<char>)
    ensures
        lookup(known_names(known), id) == known_of(known, id).name,
        lookup(known_avatars(known), id) == known_of(known, id).avatar,
{
}

/// The ids of a cached peer are its number, where it has one, and then its usernames in their order.
/// Those of a list of peers stand one after the other; malformed peers have none.
pub proof fn law_raw_ids_of_peers(peers: Seq<JsonView>, more: JsonView, i: int)
    ensures
        match entry_in(more) {
            Some(peer) => {
                let all = peers_raw_ids(peers.push(more));
                let before = peers_raw_ids(peers).len() as int;
                let from = if peer.numeric_id > 0 {
                    before + 1
                } else {
                    before
                };
                &&& all.len() == from + entry_handles(peer).len()
                &&& all.take(before) == peers_raw_ids(peers)
                &&& peer.numeric_id > 0 ==> all[before] == "telegram-user-id@"@ + decimal(
                    peer.numeric_id as int,
                )
                &&& 0 <= i < entry_handles(peer).len() ==> all[from + i] == "telegram@"@
                    + entry_handles(peer)[i]
            },
            None => peers_raw_ids(peers.push(more)) == peers_raw_ids(peers),
        },
        peers_raw_ids(Seq::empty()).len() == 0,
{
    assert(peers.push(more).drop_last() =~= peers);
    let before = peers_raw_ids(peers);
    if let Some(peer) = entry_in(more) {
        assert(peers_raw_ids(peers.push(more)).take(before.len() as int) =~= before);
    }
}

} // verus!
