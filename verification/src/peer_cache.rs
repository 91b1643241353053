//! Durable Telegram peer metadata cache.
//!
//! Contact inference runs offline from local state. This cache records peer names observed while a
//! connection is open, so that contact lists can show Telegram names without live calls.

use crate::names::{
    bot_username, filled, full_name, joined_name, law_united_again, merge_optional_fill,
    merge_optional_name, merged_peer_name, merged_usernames, nonempty, united_usernames,
    username_looks_like_bot,
};
use crate::order::{
    distinct_by, in_order, law_sorting_keeps_items, law_sorting_orders, lemma_sorted_contains,
    lemma_sorting_keeps_distinct, sorted_by, stable_sort, views, weak_order, Order,
};
use crate::text::{
    as_text, clean_opt, cleaned, comes_before, decimal, first_of, law_decimal,
    law_order_irreflexive, law_order_total, law_order_transitive, nonblank, opt_str, opt_text, own,
    same_text, signed_text, text_less, texts,
};
use vstd::prelude::*;
use vstd::string::*;

verus! {

/// The version that a cache is written with.
pub const CACHE_VERSION: u32 = 1;

/// The three kinds of Telegram chats.
#[derive(Debug, Clone, Copy, PartialEq, Eq, Structural)]
pub enum PeerKind {
    User,
    Group,
    Channel,
}

/// What Telegram tells of a user, a group or a channel.
#[derive(Debug)]
pub struct PeerProfile {
    pub kind: PeerKind,
    pub id: i64,
    /// The title of a group or a channel.
    pub name: String,
    pub first_name: String,
    pub last_name: Option<String>,
    pub username: Option<String>,
    pub usernames: Vec<String>,
    pub phone: Option<String>,
    pub bot: bool,
}

pub ghost struct ProfileView {
    pub kind: PeerKind,
    pub id: i64,
    pub name: Seq<char>,
    pub first_name: Seq<char>,
    pub last_name: Option<Seq<char>>,
    pub username: Option<Seq<char>>,
    pub usernames: Seq<Seq<char>>,
    pub phone: Option<Seq<char>>,
    pub bot: bool,
}

impl View for PeerProfile {
    type V = ProfileView;

    open spec fn view(&self) -> ProfileView {
        ProfileView {
            kind: self.kind,
            id: self.id,
            name: self.name@,
            first_name: self.first_name@,
            last_name: opt_text(self.last_name),
            username: opt_text(self.username),
            usernames: texts(self.usernames@),
            phone: opt_text(self.phone),
            bot: self.bot,
        }
    }
}

/// One cached peer.
#[derive(Debug)]
pub struct TelegramPeerRecord {
    pub id: String,
    pub numeric_id: i64,
    pub kind: String,
    pub title: Option<String>,
    pub username: Option<String>,
    pub usernames: Vec<String>,
    pub first_name: Option<String>,
    pub last_name: Option<String>,
    pub phone: Option<String>,
    pub avatar: Option<String>,
    pub is_bot: bool,
    pub source: Option<String>,
    pub updated_at_ms: i64,
    pub last_message_at_ms: Option<i64>,
}

pub ghost struct RecordView {
    pub id: Seq<char>,
    pub numeric_id: i64,
    pub kind: Seq<char>,
    pub title: Option<Seq<char>>,
    pub username: Option<Seq<char>>,
    pub usernames: Seq<Seq<char>>,
    pub first_name: Option<Seq<char>>,
    pub last_name: Option<Seq<char>>,
    pub phone: Option<Seq<char>>,
    pub avatar: Option<Seq<char>>,
    pub is_bot: bool,
    pub source: Option<Seq<char>>,
    pub updated_at_ms: i64,
    pub last_message_at_ms: Option<i64>,
}

impl View for TelegramPeerRecord {
    type V = RecordView;

    open spec fn view(&self) -> RecordView {
        RecordView {
            id: self.id@,
            numeric_id: self.numeric_id,
            kind: self.kind@,
            title: opt_text(self.title),
            username: opt_text(self.username),
            usernames: texts(self.usernames@),
            first_name: opt_text(self.first_name),
            last_name: opt_text(self.last_name),
            phone: opt_text(self.phone),
            avatar: opt_text(self.avatar),
            is_bot: self.is_bot,
            source: opt_text(self.source),
            updated_at_ms: self.updated_at_ms,
            last_message_at_ms: self.last_message_at_ms,
        }
    }
}

/// Durable cache of Telegram peer metadata for one subscriber account.
#[derive(Debug)]
pub struct TelegramPeerCache {
    pub version: u32,
    pub peers: Vec<TelegramPeerRecord>,
}

pub ghost struct CacheView {
    pub version: u32,
    pub peers: Seq<RecordView>,
}

impl View for TelegramPeerCache {
    type V = CacheView;

    open spec fn view(&self) -> CacheView {
        CacheView { version: self.version, peers: views(self.peers@) }
    }
}

pub open spec fn kind_label(kind: PeerKind) -> Seq<char> {
    match kind {
        PeerKind::User => "user"@,
        PeerKind::Group => "group"@,
        PeerKind::Channel => "channel"@,
    }
}

/// The texts that are not blank, each trimmed, in their order.
pub open spec fn kept_nonblank(values: Seq<Seq<char>>) -> Seq<Seq<char>>
    decreases values.len(),
{
    if values.len() == 0 {
        Seq::empty()
    } else {
        match nonblank(values.last()) {
            Some(value) => kept_nonblank(values.drop_last()).push(value),
            None => kept_nonblank(values.drop_last()),
        }
    }
}

pub open spec fn opt_bot_username(username: Option<Seq<char>>) -> bool {
    match username {
        Some(value) => bot_username(value),
        None => false,
    }
}

/// The record of a user. A saved name goes before the names of the profile.
pub open spec fn user_record(
    user: ProfileView,
    saved_name: Option<Seq<char>>,
    source: Seq<char>,
    now_ms: i64,
) -> RecordView {
    RecordView {
        id: decimal(user.id as int),
        numeric_id: user.id,
        kind: "user"@,
        title: first_of(
            cleaned(saved_name),
            first_of(full_name(user.first_name, user.last_name), nonblank(user.first_name)),
        ),
        username: cleaned(user.username),
        usernames: kept_nonblank(user.usernames),
        first_name: nonblank(user.first_name),
        last_name: cleaned(user.last_name),
        phone: cleaned(user.phone),
        avatar: None,
        is_bot: user.bot || opt_bot_username(user.username),
        source: Some(source),
        updated_at_ms: now_ms,
        last_message_at_ms: None,
    }
}

/// The record of a chat of any kind.
pub open spec fn chat_record(chat: ProfileView, source: Seq<char>, now_ms: i64) -> RecordView {
    if chat.kind == PeerKind::User {
        user_record(chat, None, source, now_ms)
    } else {
        RecordView {
            id: decimal(chat.id as int),
            numeric_id: chat.id,
            kind: kind_label(chat.kind),
            title: nonblank(chat.name),
            username: cleaned(chat.username),
            usernames: kept_nonblank(chat.usernames),
            first_name: None,
            last_name: None,
            phone: None,
            avatar: None,
            is_bot: opt_bot_username(chat.username),
            source: Some(source),
            updated_at_ms: now_ms,
            last_message_at_ms: None,
        }
    }
}

/// The first record of a kind with a number.
pub open spec fn first_peer(peers: Seq<RecordView>, kind: Seq<char>, numeric_id: i64) -> Option<
    RecordView,
>
    decreases peers.len(),
{
    if peers.len() == 0 {
        None
    } else if peers[0].kind == kind && peers[0].numeric_id == numeric_id {
        Some(peers[0])
    } else {
        first_peer(peers.drop_first(), kind, numeric_id)
    }
}

/// The index of the first record of a kind with an id, or the length where there is none.
pub open spec fn peer_slot(peers: Seq<RecordView>, kind: Seq<char>, id: Seq<char>) -> nat
    decreases peers.len(),
{
    if peers.len() == 0 || (peers[0].kind == kind && peers[0].id == id) {
        0
    } else {
        1 + peer_slot(peers.drop_first(), kind, id)
    }
}

pub open spec fn latest(existing: Option<i64>, candidate: Option<i64>) -> Option<i64> {
    match (existing, candidate) {
        (Some(a), Some(b)) => if a < b {
            candidate
        } else {
            existing
        },
        (Some(_), None) => existing,
        (None, _) => candidate,
    }
}

/// A record after its peer was observed again: fuller names take the place of the present ones,
/// blanks are filled in, usernames are united, and nothing that is known is forgotten.
pub open spec fn absorbed(existing: RecordView, candidate: RecordView) -> RecordView {
    RecordView {
        id: existing.id,
        numeric_id: existing.numeric_id,
        kind: existing.kind,
        title: merged_peer_name(existing.title, candidate.title),
        username: filled(existing.username, candidate.username),
        usernames: united_usernames(existing.usernames, candidate.usernames),
        first_name: merged_peer_name(existing.first_name, candidate.first_name),
        last_name: merged_peer_name(existing.last_name, candidate.last_name),
        phone: filled(existing.phone, candidate.phone),
        avatar: first_of(candidate.avatar, existing.avatar),
        is_bot: existing.is_bot || candidate.is_bot,
        source: first_of(candidate.source, existing.source),
        updated_at_ms: candidate.updated_at_ms,
        last_message_at_ms: latest(existing.last_message_at_ms, candidate.last_message_at_ms),
    }
}

/// Peers are ordered by kind, and by number within a kind.
pub open spec fn peer_before(a: RecordView, b: RecordView) -> bool {
    text_less(a.kind, b.kind) || (a.kind == b.kind && a.numeric_id < b.numeric_id)
}

pub struct ByKindAndNumber;

impl Order<TelegramPeerRecord> for ByKindAndNumber {
    open spec fn precedes(a: RecordView, b: RecordView) -> bool {
        peer_before(a, b)
    }

    fn is_before(a: &TelegramPeerRecord, b: &TelegramPeerRecord) -> (r: bool) {
        comes_before(a.kind.as_str(), b.kind.as_str()) || (same_text(
            a.kind.as_str(),
            b.kind.as_str(),
        ) && a.numeric_id < b.numeric_id)
    }
}

/// The peers after one of them was observed at a time.
pub open spec fn merged_peers(
    peers: Seq<RecordView>,
    candidate: RecordView,
    now_ms: i64,
) -> Seq<RecordView> {
    let candidate = RecordView { updated_at_ms: now_ms, ..candidate };
    let slot = peer_slot(peers, candidate.kind, candidate.id) as int;
    if slot < peers.len() {
        peers.update(slot, absorbed(peers[slot], candidate))
    } else {
        sorted_by(
            peers.push(candidate),
            |a: RecordView, b: RecordView| <ByKindAndNumber as Order<TelegramPeerRecord>>::precedes(a, b),
        )
    }
}

/// A peer of a kind with a number has an avatar that is not blank.
pub open spec fn avatar_known(peers: Seq<RecordView>, kind: Seq<char>, numeric_id: i64) -> bool {
    exists|i: int|
        0 <= i < peers.len() && (#[trigger] peers[i]).numeric_id == numeric_id && peers[i].kind
            == kind && cleaned(peers[i].avatar) is Some
}

pub fn peer_kind_label(kind: PeerKind) -> (r: &'static str)
    ensures
        r@ == kind_label(kind),
{
    match kind {
        PeerKind::User => "user",
        PeerKind::Group => "group",
        PeerKind::Channel => "channel",
    }
}

/// A user who is a person, is not the service account of Telegram, and whose dialog has a message.
pub fn is_recent_dialog_target_user(user_id: i64, is_bot: bool, has_last_message: bool) -> (r: bool)
    ensures
        r == (has_last_message && !is_bot && user_id != 777000),
{
    has_last_message && !is_bot && user_id != 777000
}

/// Copies the usernames that are not blank.
fn nonblank_usernames(values: &Vec<String>) -> (r: Vec<String>)
    ensures
        texts(r@) == kept_nonblank(texts(values@)),
{
    let ghost all = texts(values@);
    let mut out: Vec<String> = Vec::new();
    assert(texts(out@) =~= kept_nonblank(all.take(0)));
    for i in 0..values.len()
        invariant
            all == texts(values@),
            texts(out@) == kept_nonblank(all.take(i as int)),
    {
        let ghost before = texts(out@);
        assert(all.take(i + 1).drop_last() =~= all.take(i as int));
        assert(all.take(i + 1).last() == values@[i as int]@);
        if let Some(value) = nonempty(values[i].as_str()) {
            let ghost text = value@;
            out.push(value);
            assert(texts(out@) =~= before.push(text));
        }
    }
    assert(all.take(all.len() as int) =~= all);
    out
}

/// Makes the record of a user.
pub fn record_from_user(
    user: &PeerProfile,
    saved_name: Option<&str>,
    source: &str,
    now_ms: i64,
) -> (r: TelegramPeerRecord)
    ensures
        r@ == user_record(user@, opt_str(saved_name), source@, now_ms),
{
    let first_name = nonempty(user.first_name.as_str());
    let last_name = own(clean_opt(as_text(&user.last_name)));
    let profile_name = joined_name(user.first_name.as_str(), as_text(&user.last_name));
    let title = match clean_opt(saved_name) {
        Some(name) => Some(name.to_owned()),
        None => match profile_name {
            Some(name) => Some(name),
            None => nonempty(user.first_name.as_str()),
        },
    };
    TelegramPeerRecord {
        id: signed_text(user.id),
        numeric_id: user.id,
        kind: "user".to_owned(),
        title,
        username: own(clean_opt(as_text(&user.username))),
        usernames: nonblank_usernames(&user.usernames),
        first_name,
        last_name,
        phone: own(clean_opt(as_text(&user.phone))),
        avatar: None,
        is_bot: user.bot || username_looks_like_bot(as_text(&user.username)),
        source: Some(source.to_owned()),
        updated_at_ms: now_ms,
        last_message_at_ms: None,
    }
}

/// Makes the record of a chat of any kind.
pub fn record_from_chat(chat: &PeerProfile, source: &str, now_ms: i64) -> (r: TelegramPeerRecord)
    ensures
        r@ == chat_record(chat@, source@, now_ms),
{
    match chat.kind {
        PeerKind::User => record_from_user(chat, None, source, now_ms),
        _ => TelegramPeerRecord {
            id: signed_text(chat.id),
            numeric_id: chat.id,
            kind: peer_kind_label(chat.kind).to_owned(),
            title: nonempty(chat.name.as_str()),
            username: own(clean_opt(as_text(&chat.username))),
            usernames: nonblank_usernames(&chat.usernames),
            first_name: None,
            last_name: None,
            phone: None,
            avatar: None,
            is_bot: username_looks_like_bot(as_text(&chat.username)),
            source: Some(source.to_owned()),
            updated_at_ms: now_ms,
            last_message_at_ms: None,
        },
    }
}

proof fn lemma_peer_slot(peers: Seq<RecordView>, kind: Seq<char>, id: Seq<char>, k: int)
    requires
        0 <= k <= peers.len(),
        forall|i: int|
            0 <= i < k ==> !((#[trigger] peers[i]).kind == kind && peers[i].id == id),
        k < peers.len() ==> peers[k].kind == kind && peers[k].id == id,
    ensures
        peer_slot(peers, kind, id) == k,
    decreases k,
{
    if k > 0 {
        let rest = peers.drop_first();
        assert forall|i: int| 0 <= i < k - 1 implies !((#[trigger] rest[i]).kind == kind
            && rest[i].id == id) by {
            assert(rest[i] == peers[i + 1]);
        }
        assert(!(peers[0].kind == kind && peers[0].id == id));
        lemma_peer_slot(rest, kind, id, k - 1);
    }
}

/// The slot is the first record of a kind with an id.
pub proof fn lemma_peer_slot_meaning(peers: Seq<RecordView>, kind: Seq<char>, id: Seq<char>)
    ensures
        peer_slot(peers, kind, id) <= peers.len(),
        peer_slot(peers, kind, id) < peers.len() ==> {
            let k = peer_slot(peers, kind, id) as int;
            peers[k].kind == kind && peers[k].id == id
        },
        forall|i: int|
            0 <= i < peer_slot(peers, kind, id) && i < peers.len() ==> !((#[trigger] peers[i]).kind
                == kind && peers[i].id == id),
    decreases peers.len(),
{
    if peers.len() > 0 && !(peers[0].kind == kind && peers[0].id == id) {
        let rest = peers.drop_first();
        lemma_peer_slot_meaning(rest, kind, id);
        assert forall|i: int|
            0 <= i < peer_slot(peers, kind, id) && i < peers.len() implies !((
        #[trigger] peers[i]).kind == kind && peers[i].id == id) by {
            if i > 0 {
                assert(peers[i] == rest[i - 1]);
            }
        }
    }
}

impl TelegramPeerRecord {
    /// Takes in what another record of the same peer tells.
    fn absorb(&mut self, candidate: TelegramPeerRecord)
        ensures
            final(self)@ == absorbed(old(self)@, candidate@),
    {
        merge_optional_name(&mut self.title, candidate.title);
        merge_optional_name(&mut self.first_name, candidate.first_name);
        merge_optional_name(&mut self.last_name, candidate.last_name);
        merge_optional_fill(&mut self.username, candidate.username);
        merge_optional_fill(&mut self.phone, candidate.phone);
        if candidate.avatar.is_some() {
            self.avatar = candidate.avatar;
        }
        self.usernames = merged_usernames(&self.usernames, &candidate.usernames);
        self.is_bot = self.is_bot || candidate.is_bot;
        if candidate.source.is_some() {
            self.source = candidate.source;
        }
        self.updated_at_ms = candidate.updated_at_ms;
        if let Some(time) = candidate.last_message_at_ms {
            match self.last_message_at_ms {
                Some(current) => {
                    if current < time {
                        self.last_message_at_ms = Some(time);
                    }
                },
                None => {
                    self.last_message_at_ms = Some(time);
                },
            }
        }
    }

    /// Whether two records hold the same.
    pub fn same_as(&self, other: &TelegramPeerRecord) -> (r: bool)
        ensures
            r == (self@ == other@),
    {
        same_text(self.id.as_str(), other.id.as_str()) && self.numeric_id == other.numeric_id
            && same_text(self.kind.as_str(), other.kind.as_str()) && same_opt(
            &self.title,
            &other.title,
        ) && same_opt(&self.username, &other.username) && same_list(
            &self.usernames,
            &other.usernames,
        ) && same_opt(&self.first_name, &other.first_name) && same_opt(
            &self.last_name,
            &other.last_name,
        ) && same_opt(&self.phone, &other.phone) && same_opt(&self.avatar, &other.avatar)
            && self.is_bot == other.is_bot && same_opt(&self.source, &other.source)
            && self.updated_at_ms == other.updated_at_ms && self.last_message_at_ms
            == other.last_message_at_ms
    }

    /// Copies the record.
    pub fn copy(&self) -> (r: TelegramPeerRecord)
        ensures
            r@ == self@,
    {
        TelegramPeerRecord {
            id: self.id.clone(),
            numeric_id: self.numeric_id,
            kind: self.kind.clone(),
            title: self.title.clone(),
            username: self.username.clone(),
            usernames: copy_list(&self.usernames),
            first_name: self.first_name.clone(),
            last_name: self.last_name.clone(),
            phone: self.phone.clone(),
            avatar: self.avatar.clone(),
            is_bot: self.is_bot,
            source: self.source.clone(),
            updated_at_ms: self.updated_at_ms,
            last_message_at_ms: self.last_message_at_ms,
        }
    }
}

/// Whether two optional texts are the same.
pub fn same_opt(a: &Option<String>, b: &Option<String>) -> (r: bool)
    ensures
        r == (opt_text(*a) == opt_text(*b)),
{
    match (a, b) {
        (Some(x), Some(y)) => same_text(x.as_str(), y.as_str()),
        (None, None) => true,
        _ => false,
    }
}

/// Whether two lists hold the same texts in the same order.
pub fn same_list(a: &Vec<String>, b: &Vec<String>) -> (r: bool)
    ensures
        r == (texts(a@) == texts(b@)),
{
    if a.len() != b.len() {
        assert(texts(a@).len() != texts(b@).len());
        return false;
    }
    for i in 0..a.len()
        invariant
            a@.len() == b@.len(),
            forall|j: int| 0 <= j < i ==> (#[trigger] a@[j])@ == b@[j]@,
    {
        if !same_text(a[i].as_str(), b[i].as_str()) {
            assert(texts(a@)[i as int] != texts(b@)[i as int]);
            return false;
        }
    }
    assert(texts(a@) =~= texts(b@));
    true
}

/// Copies a list of texts.
pub fn copy_list(values: &Vec<String>) -> (r: Vec<String>)
    ensures
        texts(r@) == texts(values@),
{
    let mut out: Vec<String> = Vec::new();
    for i in 0..values.len()
        invariant
            out@.len() == i,
            forall|j: int| 0 <= j < i ==> (#[trigger] out@[j])@ == values@[j]@,
    {
        out.push(values[i].clone());
    }
    assert(texts(out@) =~= texts(values@));
    out
}

impl TelegramPeerCache {
    /// A cache without peers.
    pub fn empty() -> (r: TelegramPeerCache)
        ensures
            r@ == (CacheView { version: CACHE_VERSION, peers: Seq::empty() }),
    {
        let r = TelegramPeerCache { version: CACHE_VERSION, peers: Vec::new() };
        assert(r@.peers =~= Seq::<RecordView>::empty());
        r
    }

    /// The cache of a subscriber, from the text of its file, where there is a file, and from what
    /// that text was decoded to. A missing or blank file is an empty cache. There is no cache where
    /// a text that is not blank could not be decoded.
    pub fn load(raw: Option<&str>, decoded: Option<TelegramPeerCache>) -> (r: Option<
        TelegramPeerCache,
    >)
        ensures
            match r {
                Some(cache) => cache@ == (if cleaned(opt_str(raw)) is None {
                    CacheView { version: CACHE_VERSION, peers: Seq::empty() }
                } else {
                    CacheView { version: CACHE_VERSION, peers: decoded->0@.peers }
                }) && (cleaned(opt_str(raw)) is None || decoded is Some),
                None => cleaned(opt_str(raw)) is Some && decoded is None,
            },
            r is Some ==> r->0.version == 1,
            raw is None ==> r is Some && r->0@.peers.len() == 0,
            decoded is Some && cleaned(opt_str(raw)) is Some ==> r is Some && r->0@.peers
                == decoded->0@.peers,
    {
        if clean_opt(raw).is_none() {
            return Some(TelegramPeerCache::empty());
        }
        match decoded {
            Some(cache) => Some(TelegramPeerCache { version: CACHE_VERSION, peers: cache.peers }),
            None => None,
        }
    }

    /// Records metadata for one Telegram chat or user.
    pub fn observe_chat(&mut self, chat: &PeerProfile, source: &str, now_ms: i64)
        ensures
            final(self)@ == (CacheView {
                version: old(self)@.version,
                peers: merged_peers(old(self)@.peers, chat_record(chat@, source@, now_ms), now_ms),
            }),
    {
        self.observe_chat_with_avatar(chat, None, source, now_ms);
    }

    /// Records metadata plus the time of the last message seen in a dialog.
    pub fn observe_chat_with_last_message_at_ms(
        &mut self,
        chat: &PeerProfile,
        source: &str,
        last_message_at_ms: Option<i64>,
        now_ms: i64,
    )
        ensures
            final(self)@ == (CacheView {
                version: old(self)@.version,
                peers: merged_peers(
                    old(self)@.peers,
                    RecordView { last_message_at_ms, ..chat_record(chat@, source@, now_ms) },
                    now_ms,
                ),
            }),
    {
        let mut record = record_from_chat(chat, source, now_ms);
        record.last_message_at_ms = last_message_at_ms;
        self.merge(record, now_ms);
    }

    /// Records metadata plus an avatar.
    pub fn observe_chat_with_avatar(
        &mut self,
        chat: &PeerProfile,
        avatar: Option<String>,
        source: &str,
        now_ms: i64,
    )
        ensures
            final(self)@ == (CacheView {
                version: old(self)@.version,
                peers: merged_peers(
                    old(self)@.peers,
                    RecordView {
                        avatar: opt_text(avatar),
                        ..chat_record(chat@, source@, now_ms)
                    },
                    now_ms,
                ),
            }),
    {
        let mut record = record_from_chat(chat, source, now_ms);
        record.avatar = avatar;
        self.merge(record, now_ms);
    }

    /// Records a user of the contact book, under the name that it was saved with.
    pub fn observe_user(
        &mut self,
        user: &PeerProfile,
        saved_name: Option<&str>,
        source: &str,
        now_ms: i64,
    )
        ensures
            final(self)@ == (CacheView {
                version: old(self)@.version,
                peers: merged_peers(
                    old(self)@.peers,
                    user_record(user@, opt_str(saved_name), source@, now_ms),
                    now_ms,
                ),
            }),
    {
        let record = record_from_user(user, saved_name, source, now_ms);
        self.merge(record, now_ms);
    }

    /// Whether the cache has to be saved: it differs from what was loaded.
    pub fn save_if_changed(&self, original: &TelegramPeerCache) -> (r: bool)
        ensures
            r == (self@ != original@),
    {
        if self.version != original.version || self.peers.len() != original.peers.len() {
            assert(self.peers@.len() != original.peers@.len() ==> self@.peers.len()
                != original@.peers.len());
            return true;
        }
        for i in 0..self.peers.len()
            invariant
                self.peers@.len() == original.peers@.len(),
                forall|j: int| 0 <= j < i ==> (#[trigger] self.peers@[j])@ == original.peers@[j]@,
        {
            if !self.peers[i].same_as(&original.peers[i]) {
                assert(self@.peers[i as int] != original@.peers[i as int]);
                return true;
            }
        }
        assert(self@.peers =~= original@.peers);
        false
    }

    /// Copies the cache.
    pub fn copy(&self) -> (r: TelegramPeerCache)
        ensures
            r@ == self@,
    {
        let mut peers: Vec<TelegramPeerRecord> = Vec::new();
        for i in 0..self.peers.len()
            invariant
                peers@.len() == i,
                forall|j: int| 0 <= j < i ==> (#[trigger] peers@[j])@ == self.peers@[j]@,
        {
            peers.push(self.peers[i].copy());
        }
        let r = TelegramPeerCache { version: self.version, peers };
        assert(r@.peers =~= self@.peers);
        r
    }

    /// Whether an avatar of a chat is known.
    pub fn has_avatar(&self, chat: &PeerProfile) -> (r: bool)
        ensures
            r == avatar_known(self@.peers, kind_label(chat.kind), chat.id),
    {
        let label = peer_kind_label(chat.kind);
        for i in 0..self.peers.len()
            invariant
                label@ == kind_label(chat.kind),
                forall|j: int|
                    0 <= j < i ==> !((#[trigger] self.peers@[j])@.numeric_id == chat.id
                        && self.peers@[j]@.kind == kind_label(chat.kind) && cleaned(
                        self.peers@[j]@.avatar,
                    ) is Some),
        {
            let record = &self.peers[i];
            if record.numeric_id == chat.id && same_text(record.kind.as_str(), label) && clean_opt(
                as_text(&record.avatar),
            ).is_some() {
                assert(self@.peers[i as int] == self.peers@[i as int]@);
                return true;
            }
        }
        assert forall|i: int| 0 <= i < self@.peers.len() implies !((
        #[trigger] self@.peers[i]).numeric_id == chat.id && self@.peers[i].kind == kind_label(
            chat.kind,
        ) && cleaned(self@.peers[i].avatar) is Some) by {
            assert(self@.peers[i] == self.peers@[i]@);
        }
        false
    }

    /// Returns the best cached display title for one peer.
    pub fn title_for(&self, kind: &str, numeric_id: i64) -> (r: Option<String>)
        ensures
            opt_text(r) == (match first_peer(self@.peers, kind@, numeric_id) {
                Some(record) => record.title,
                None => None,
            }),
            forall|k: int|
                #![trigger self@.peers[k]]
                is_first_peer(self@.peers, kind@, numeric_id, k) ==> opt_text(r)
                    == self@.peers[k].title,
    {
        proof {
            lemma_is_first_peer(self@.peers, kind@, numeric_id);
        }
        match self.find(kind, numeric_id) {
            Some(record) => record.title.clone(),
            None => None,
        }
    }

    /// Returns the best cached public username for one peer.
    pub fn username_for(&self, kind: &str, numeric_id: i64) -> (r: Option<String>)
        ensures
            opt_text(r) == (match first_peer(self@.peers, kind@, numeric_id) {
                Some(record) => if record.username is None && record.usernames.len() > 0 {
                    Some(record.usernames[0])
                } else {
                    record.username
                },
                None => None,
            }),
            forall|k: int|
                #![trigger self@.peers[k]]
                is_first_peer(self@.peers, kind@, numeric_id, k)
                    && self@.peers[k].username is Some ==> opt_text(r) == self@.peers[k].username,
            forall|k: int|
                #![trigger self@.peers[k]]
                is_first_peer(self@.peers, kind@, numeric_id, k) && self@.peers[k].username is None
                    && self@.peers[k].usernames.len() > 0 ==> opt_text(r) == Some(
                    self@.peers[k].usernames.first(),
                ),
    {
        proof {
            lemma_is_first_peer(self@.peers, kind@, numeric_id);
        }
        match self.find(kind, numeric_id) {
            Some(record) => {
                if record.username.is_none() && record.usernames.len() > 0 {
                    Some(record.usernames[0].clone())
                } else {
                    record.username.clone()
                }
            },
            None => None,
        }
    }

    /// The first record of a kind with a number.
    pub fn find(&self, kind: &str, numeric_id: i64) -> (r: Option<&TelegramPeerRecord>)
        ensures
            match r {
                Some(record) => first_peer(self@.peers, kind@, numeric_id) == Some(record@),
                None => first_peer(self@.peers, kind@, numeric_id) is None,
            },
    {
        let ghost all = self@.peers;
        assert(all.skip(0) =~= all);
        for i in 0..self.peers.len()
            invariant
                all == self@.peers,
                first_peer(all, kind@, numeric_id) == first_peer(
                    all.skip(i as int),
                    kind@,
                    numeric_id,
                ),
        {
            assert(all[i as int] == self.peers@[i as int]@);
            if same_text(self.peers[i].kind.as_str(), kind) && self.peers[i].numeric_id
                == numeric_id {
                return Some(&self.peers[i]);
            }
            assert(all.skip(i as int).drop_first() =~= all.skip(i + 1));
        }
        None
    }

    /// Takes in a record that was observed at a time.
    pub fn merge(&mut self, candidate: TelegramPeerRecord, now_ms: i64)
        ensures
            final(self)@ == (CacheView {
                version: old(self)@.version,
                peers: merged_peers(old(self)@.peers, candidate@, now_ms),
            }),
    {
        let mut candidate = candidate;
        candidate.updated_at_ms = now_ms;
        let ghost wanted = candidate@;
        let ghost before = self@.peers;
        let mut slot: usize = 0;
        while slot < self.peers.len() && !(same_text(
            self.peers[slot].id.as_str(),
            candidate.id.as_str(),
        ) && same_text(self.peers[slot].kind.as_str(), candidate.kind.as_str()))
            invariant
                slot <= self.peers@.len(),
                before == self@.peers,
                *self == *old(self),
                forall|i: int|
                    0 <= i < slot ==> !((#[trigger] before[i]).kind == candidate@.kind
                        && before[i].id == candidate@.id),
            decreases self.peers@.len() - slot,
        {
            assert(before[slot as int] == self.peers@[slot as int]@);
            slot = slot + 1;
        }
        proof {
            if slot < self.peers@.len() {
                assert(before[slot as int] == self.peers@[slot as int]@);
            }
            lemma_peer_slot(before, wanted.kind, wanted.id, slot as int);
        }
        if slot < self.peers.len() {
            self.peers[slot].absorb(candidate);
            assert(self@.peers =~= before.update(
                slot as int,
                absorbed(before[slot as int], wanted),
            ));
        } else {
            let mut peers: Vec<TelegramPeerRecord> = Vec::new();
            std::mem::swap(&mut peers, &mut self.peers);
            peers.push(candidate);
            assert(views(peers@) =~= before.push(wanted));
            self.peers = stable_sort::<TelegramPeerRecord, ByKindAndNumber>(peers);
        }
    }
}

/// A record is of a kind and has a number, and no record before it is and does.
pub open spec fn is_first_peer(
    peers: Seq<RecordView>,
    kind: Seq<char>,
    numeric_id: i64,
    k: int,
) -> bool {
    &&& 0 <= k < peers.len()
    &&& peers[k].kind == kind && peers[k].numeric_id == numeric_id
    &&& forall|i: int|
        0 <= i < k ==> !((#[trigger] peers[i]).kind == kind && peers[i].numeric_id == numeric_id)
}

proof fn lemma_is_first_peer(peers: Seq<RecordView>, kind: Seq<char>, numeric_id: i64)
    ensures
        forall|k: int|
            #![trigger peers[k]]
            is_first_peer(peers, kind, numeric_id, k) ==> first_peer(peers, kind, numeric_id)
                == Some(peers[k]),
{
    assert forall|k: int|
        #![trigger peers[k]]
        is_first_peer(peers, kind, numeric_id, k) implies first_peer(peers, kind, numeric_id)
        == Some(peers[k]) by {
        law_first_peer(peers, kind, numeric_id, k);
    }
}

/// What tells one peer from another.
pub open spec fn peer_key() -> spec_fn(RecordView) -> (Seq<char>, Seq<char>) {
    |record: RecordView| (record.kind, record.id)
}

/// No two records are of the same kind and id.
pub open spec fn one_record_each(peers: Seq<RecordView>) -> bool {
    distinct_by(peers, peer_key())
}

/// The order of peers.
pub open spec fn peer_order() -> spec_fn(RecordView, RecordView) -> bool {
    |a: RecordView, b: RecordView| <ByKindAndNumber as Order<TelegramPeerRecord>>::precedes(a, b)
}

/// Peers can be ordered by kind and number.
pub proof fn lemma_peer_order()
    ensures
        weak_order(peer_order(), |record: RecordView| true),
{
    let before = peer_order();
    assert forall|a: RecordView, b: RecordView| #[trigger] before(a, b) implies !before(b, a) by {
        if text_less(a.kind, b.kind) && text_less(b.kind, a.kind) {
            law_order_transitive(a.kind, b.kind, a.kind);
        }
        law_order_irreflexive(a.kind);
    }
    assert forall|a: RecordView, b: RecordView, c: RecordView|
        !(#[trigger] before(a, b)) && !(#[trigger] before(b, c)) implies !before(a, c) by {
        law_order_total(a.kind, b.kind);
        law_order_total(b.kind, c.kind);
        law_order_irreflexive(a.kind);
        if text_less(b.kind, a.kind) && text_less(c.kind, b.kind) {
            law_order_transitive(c.kind, b.kind, a.kind);
        }
        if text_less(a.kind, c.kind) && text_less(c.kind, a.kind) {
            law_order_transitive(a.kind, c.kind, a.kind);
        }
    }
}

/// Observing a peer changes no record of another peer, and adds none.
pub proof fn law_merge_changes_one_peer(
    peers: Seq<RecordView>,
    candidate: RecordView,
    now_ms: i64,
    other: RecordView,
)
    requires
        other.kind != candidate.kind || other.id != candidate.id,
    ensures
        merged_peers(peers, candidate, now_ms).contains(other) == peers.contains(other),
{
    let seen = RecordView { updated_at_ms: now_ms, ..candidate };
    let after = merged_peers(peers, candidate, now_ms);
    let slot = peer_slot(peers, candidate.kind, candidate.id) as int;
    lemma_peer_slot_meaning(peers, candidate.kind, candidate.id);
    if slot < peers.len() {
        if peers.contains(other) {
            let k = peers.index_of(other);
            assert(after[k] == other);
        }
        if after.contains(other) {
            let k = after.index_of(other);
            assert(peers[k] == other);
        }
    } else {
        let all = peers.push(seen);
        lemma_sorted_contains(all, peer_order(), other);
        if peers.contains(other) {
            let k = peers.index_of(other);
            assert(all[k] == other);
        }
        if all.contains(other) {
            let k = all.index_of(other);
            assert(k < peers.len());
            assert(peers[k] == other);
        }
    }
}

/// The record that a peer has after it was observed.
pub open spec fn observed_record(
    peers: Seq<RecordView>,
    candidate: RecordView,
    now_ms: i64,
) -> RecordView {
    let seen = RecordView { updated_at_ms: now_ms, ..candidate };
    let slot = peer_slot(peers, candidate.kind, candidate.id) as int;
    if slot < peers.len() {
        absorbed(peers[slot], seen)
    } else {
        seen
    }
}

/// Where every peer has one record, that is still so after a peer was observed, and the observed
/// peer has the record that its observations add up to.
pub proof fn law_merge_keeps_one_record_each(
    peers: Seq<RecordView>,
    candidate: RecordView,
    now_ms: i64,
)
    requires
        one_record_each(peers),
    ensures
        one_record_each(merged_peers(peers, candidate, now_ms)),
        merged_peers(peers, candidate, now_ms).contains(
            observed_record(peers, candidate, now_ms),
        ),
{
    let seen = RecordView { updated_at_ms: now_ms, ..candidate };
    let after = merged_peers(peers, candidate, now_ms);
    let slot = peer_slot(peers, candidate.kind, candidate.id) as int;
    lemma_peer_slot_meaning(peers, candidate.kind, candidate.id);
    if slot < peers.len() {
        assert(after[slot] == absorbed(peers[slot], seen));
        let key = peer_key();
        assert forall|i: int, j: int| 0 <= i < j < after.len() implies key(#[trigger] after[i])
            != key(#[trigger] after[j]) by {
            assert(after[i].kind == peers[i].kind && after[i].id == peers[i].id);
            assert(after[j].kind == peers[j].kind && after[j].id == peers[j].id);
            assert(key(peers[i]) != key(peers[j]));
        }
    } else {
        let all = peers.push(seen);
        let key = peer_key();
        assert(all[peers.len() as int] == seen);
        assert(all.contains(seen));
        lemma_sorted_contains(all, peer_order(), seen);
        assert forall|i: int, j: int| 0 <= i < j < all.len() implies key(#[trigger] all[i]) != key(
            #[trigger] all[j],
        ) by {
            if j < peers.len() {
                assert(key(peers[i]) != key(peers[j]));
            }
        }
        lemma_sorting_keeps_distinct(all, peer_order(), key);
    }
}

/// Peers that are ordered by kind and number stay so.
pub proof fn law_merge_keeps_order(peers: Seq<RecordView>, candidate: RecordView, now_ms: i64)
    requires
        in_order(peers, peer_order()),
    ensures
        in_order(merged_peers(peers, candidate, now_ms), peer_order()),
{
    let seen = RecordView { updated_at_ms: now_ms, ..candidate };
    let after = merged_peers(peers, candidate, now_ms);
    let slot = peer_slot(peers, candidate.kind, candidate.id) as int;
    lemma_peer_slot_meaning(peers, candidate.kind, candidate.id);
    if slot < peers.len() {
        let before = peer_order();
        assert forall|i: int, j: int| 0 <= i < j < after.len() implies !before(
            after[j],
            after[i],
        ) by {
            assert(!before(peers[j], peers[i]));
            assert(after[i].kind == peers[i].kind && after[i].numeric_id == peers[i].numeric_id);
            assert(after[j].kind == peers[j].kind && after[j].numeric_id == peers[j].numeric_id);
        }
    } else {
        lemma_peer_order();
        law_sorting_orders(peers.push(seen), peer_order(), |record: RecordView| true);
    }
}

proof fn lemma_longer_than_itself(name: Option<Seq<char>>, candidate: Option<Seq<char>>)
    ensures
        merged_peer_name(merged_peer_name(name, candidate), candidate) == merged_peer_name(
            name,
            candidate,
        ),
{
}

/// Observing a known peer a second time at the same time changes nothing.
pub proof fn law_merge_again(peers: Seq<RecordView>, candidate: RecordView, now_ms: i64)
    requires
        peer_slot(peers, candidate.kind, candidate.id) < peers.len(),
    ensures
        merged_peers(merged_peers(peers, candidate, now_ms), candidate, now_ms) == merged_peers(
            peers,
            candidate,
            now_ms,
        ),
{
    let seen = RecordView { updated_at_ms: now_ms, ..candidate };
    let after = merged_peers(peers, candidate, now_ms);
    let slot = peer_slot(peers, candidate.kind, candidate.id) as int;
    lemma_peer_slot_meaning(peers, candidate.kind, candidate.id);
    assert forall|i: int| 0 <= i < slot implies !((#[trigger] after[i]).kind == candidate.kind
        && after[i].id == candidate.id) by {
        assert(after[i] == peers[i]);
    }
    lemma_peer_slot(after, candidate.kind, candidate.id, slot);
    let known = peers[slot];
    lemma_longer_than_itself(known.title, seen.title);
    lemma_longer_than_itself(known.first_name, seen.first_name);
    lemma_longer_than_itself(known.last_name, seen.last_name);
    law_united_again(known.usernames, seen.usernames);
    assert(absorbed(after[slot], seen) == after[slot]);
    assert(after.update(slot, after[slot]) =~= after);
}

/// What is known of a peer is not forgotten: a name, a username, a phone number or an avatar that
/// was there is followed by one that is there, a bot stays a bot, and the last message is never
/// set back.
pub proof fn law_absorbing_keeps_knowledge(existing: RecordView, candidate: RecordView)
    ensures
        cleaned(existing.title) is Some ==> absorbed(existing, candidate).title is Some,
        cleaned(existing.username) is Some ==> absorbed(existing, candidate).username
            == existing.username,
        cleaned(existing.phone) is Some ==> absorbed(existing, candidate).phone == existing.phone,
        existing.avatar is Some ==> absorbed(existing, candidate).avatar is Some,
        existing.is_bot ==> absorbed(existing, candidate).is_bot,
        existing.source is Some ==> absorbed(existing, candidate).source is Some,
        match (existing.last_message_at_ms, absorbed(existing, candidate).last_message_at_ms) {
            (Some(a), Some(b)) => a <= b,
            (Some(_), None) => false,
            (None, _) => true,
        },
{
}

/// The id of a record is its number.
pub open spec fn is_numbered(record: RecordView) -> bool {
    record.id == decimal(record.numeric_id as int)
}

pub open spec fn all_numbered(peers: Seq<RecordView>) -> bool {
    forall|i: int| 0 <= i < peers.len() ==> is_numbered(#[trigger] peers[i])
}

proof fn lemma_merged_numbered(peers: Seq<RecordView>, candidate: RecordView, now_ms: i64)
    requires
        all_numbered(peers),
        is_numbered(candidate),
    ensures
        all_numbered(merged_peers(peers, candidate, now_ms)),
        observed_record(peers, candidate, now_ms).kind == candidate.kind,
        observed_record(peers, candidate, now_ms).numeric_id == candidate.numeric_id,
{
    let seen = RecordView { updated_at_ms: now_ms, ..candidate };
    let after = merged_peers(peers, candidate, now_ms);
    let slot = peer_slot(peers, candidate.kind, candidate.id) as int;
    lemma_peer_slot_meaning(peers, candidate.kind, candidate.id);
    if slot < peers.len() {
        assert(is_numbered(peers[slot]));
        law_decimal(peers[slot].numeric_id as int, candidate.numeric_id as int);
        assert forall|i: int| 0 <= i < after.len() implies is_numbered(#[trigger] after[i]) by {
            assert(is_numbered(peers[i]));
        }
    } else {
        let all = peers.push(seen);
        assert forall|i: int| 0 <= i < after.len() implies is_numbered(#[trigger] after[i]) by {
            assert(after.contains(after[i]));
            lemma_sorted_contains(all, peer_order(), after[i]);
            let k = all.index_of(after[i]);
            if k < peers.len() {
                assert(is_numbered(peers[k]));
            }
        }
    }
}

proof fn lemma_first_peer(peers: Seq<RecordView>, record: RecordView)
    requires
        peers.contains(record),
        forall|i: int|
            0 <= i < peers.len() && (#[trigger] peers[i]).kind == record.kind && peers[i].numeric_id
                == record.numeric_id ==> peers[i] == record,
    ensures
        first_peer(peers, record.kind, record.numeric_id) == Some(record),
    decreases peers.len(),
{
    let k = peers.index_of(record);
    if !(peers[0].kind == record.kind && peers[0].numeric_id == record.numeric_id) {
        let rest = peers.drop_first();
        assert(k > 0);
        assert(rest[k - 1] == record);
        assert forall|i: int|
            0 <= i < rest.len() && (#[trigger] rest[i]).kind == record.kind && rest[i].numeric_id
                == record.numeric_id implies rest[i] == record by {
            assert(peers[i + 1] == rest[i]);
        }
        lemma_first_peer(rest, record);
    }
}

/// A peer that was observed is found: looking it up by kind and number gives the record that its
/// observations add up to. This is so where every peer has one record and is kept by its number, as
/// observed peers are.
pub proof fn law_observed_peer_is_found(
    peers: Seq<RecordView>,
    candidate: RecordView,
    now_ms: i64,
)
    requires
        one_record_each(peers),
        all_numbered(peers),
        is_numbered(candidate),
    ensures
        first_peer(
            merged_peers(peers, candidate, now_ms),
            candidate.kind,
            candidate.numeric_id,
        ) == Some(observed_record(peers, candidate, now_ms)),
        all_numbered(merged_peers(peers, candidate, now_ms)),
{
    let after = merged_peers(peers, candidate, now_ms);
    let record = observed_record(peers, candidate, now_ms);
    lemma_merged_numbered(peers, candidate, now_ms);
    law_merge_keeps_one_record_each(peers, candidate, now_ms);
    let key = peer_key();
    let k = after.index_of(record);
    assert forall|i: int|
        0 <= i < after.len() && (#[trigger] after[i]).kind == record.kind && after[i].numeric_id
            == record.numeric_id implies after[i] == record by {
        assert(is_numbered(after[i]) && is_numbered(after[k]));
        assert(key(after[i]) == key(after[k]));
        if i < k {
            assert(key(after[i]) != key(after[k]));
        } else if k < i {
            assert(key(after[k]) != key(after[i]));
        }
    }
    lemma_first_peer(after, record);
}

/// An avatar that was recorded for a peer is known afterwards.
pub proof fn law_avatar_is_recorded(peers: Seq<RecordView>, candidate: RecordView, now_ms: i64)
    requires
        one_record_each(peers),
        all_numbered(peers),
        is_numbered(candidate),
        cleaned(candidate.avatar) is Some,
    ensures
        avatar_known(
            merged_peers(peers, candidate, now_ms),
            candidate.kind,
            candidate.numeric_id,
        ),
{
    let after = merged_peers(peers, candidate, now_ms);
    let record = observed_record(peers, candidate, now_ms);
    lemma_merged_numbered(peers, candidate, now_ms);
    law_merge_keeps_one_record_each(peers, candidate, now_ms);
    let k = after.index_of(record);
    assert(after[k].numeric_id == candidate.numeric_id && cleaned(after[k].avatar) is Some);
}

/// What Telegram tells of a chat is kept by the number of the chat.
pub proof fn law_observations_are_numbered(
    chat: ProfileView,
    saved_name: Option<Seq<char>>,
    source: Seq<char>,
    now_ms: i64,
)
    ensures
        is_numbered(chat_record(chat, source, now_ms)),
        is_numbered(user_record(chat, saved_name, source, now_ms)),
{
}

/// A chat is recorded as a user, a group or a channel.
pub proof fn law_kind_labels(kind: PeerKind)
    ensures
        kind == PeerKind::User <==> kind_label(kind) == "user"@,
        kind == PeerKind::Group <==> kind_label(kind) == "group"@,
        kind == PeerKind::Channel <==> kind_label(kind) == "channel"@,
{
    reveal_strlit("user");
    reveal_strlit("group");
    reveal_strlit("channel");
    assert("user"@.len() == 4 && "group"@.len() == 5 && "channel"@.len() == 7);
}

/// Of the usernames in a profile the blank ones are left out, and the others are trimmed.
pub proof fn law_kept_usernames(values: Seq<Seq<char>>)
    ensures
        kept_nonblank(values) == values.filter(
            |value: Seq<char>| nonblank(value) is Some,
        ).map_values(|value: Seq<char>| nonblank(value)->0),
    decreases values.len(),
{
    reveal(Seq::filter);
    let keep = |value: Seq<char>| nonblank(value) is Some;
    let clean = |value: Seq<char>| nonblank(value)->0;
    if values.len() == 0 {
        assert(kept_nonblank(values) =~= values.filter(keep).map_values(clean));
    } else {
        let rest = values.drop_last();
        law_kept_usernames(rest);
        assert(keep(values.last()) == (nonblank(values.last()) is Some));
        if keep(values.last()) {
            assert(values.filter(keep) == rest.filter(keep).push(values.last()));
            assert(rest.filter(keep).push(values.last()).map_values(clean) =~= rest.filter(
                keep,
            ).map_values(clean).push(nonblank(values.last())->0));
        }
    }
}

/// What is recorded of a user: under its number, titled by the name that it was saved with, or else by
/// its own first and last name. A bot is one that says so, or whose username does.
pub proof fn law_recorded_user(
    user: ProfileView,
    saved_name: Option<Seq<char>>,
    source: Seq<char>,
    now_ms: i64,
)
    ensures
        ({
            let record = user_record(user, saved_name, source, now_ms);
            &&& record.id == decimal(user.id as int)
            &&& record.numeric_id == user.id
            &&& record.kind == "user"@
            &&& cleaned(saved_name) is Some ==> record.title == cleaned(saved_name)
            &&& cleaned(saved_name) is None ==> record.title == full_name(
                user.first_name,
                user.last_name,
            )
            &&& record.username == cleaned(user.username)
            &&& record.usernames == kept_nonblank(user.usernames)
            &&& record.first_name == nonblank(user.first_name)
            &&& record.last_name == cleaned(user.last_name)
            &&& record.phone == cleaned(user.phone)
            &&& record.avatar is None
            &&& record.is_bot <==> user.bot || (user.username is Some && bot_username(
                user.username->0,
            ))
            &&& record.source == Some(source)
            &&& record.updated_at_ms == now_ms
            &&& record.last_message_at_ms is None
        }),
{
}

/// What is recorded of a chat: a user as a user without a saved name, and of a group or a channel its
/// title and its usernames.
pub proof fn law_recorded_chat(chat: ProfileView, source: Seq<char>, now_ms: i64)
    ensures
        ({
            let record = chat_record(chat, source, now_ms);
            &&& record.id == decimal(chat.id as int)
            &&& record.numeric_id == chat.id
            &&& record.username == cleaned(chat.username)
            &&& record.usernames == kept_nonblank(chat.usernames)
            &&& record.avatar is None
            &&& record.source == Some(source)
            &&& record.updated_at_ms == now_ms
            &&& record.last_message_at_ms is None
            &&& chat.kind == PeerKind::User ==> record == user_record(chat, None, source, now_ms)
            &&& chat.kind == PeerKind::Group ==> record.kind == "group"@
            &&& chat.kind == PeerKind::Channel ==> record.kind == "channel"@
            &&& chat.kind != PeerKind::User ==> {
                &&& record.title == nonblank(chat.name)
                &&& record.first_name is None
                &&& record.last_name is None
                &&& record.phone is None
                &&& record.is_bot <==> chat.username is Some && bot_username(chat.username->0)
            }
        }),
{
}

/// Looking up a peer gives the first record of its kind and number, and nothing where there is none.
pub proof fn law_first_peer(peers: Seq<RecordView>, kind: Seq<char>, numeric_id: i64, k: int)
    requires
        0 <= k <= peers.len(),
        forall|i: int|
            0 <= i < k ==> !((#[trigger] peers[i]).kind == kind && peers[i].numeric_id
                == numeric_id),
        k < peers.len() ==> peers[k].kind == kind && peers[k].numeric_id == numeric_id,
    ensures
        k < peers.len() ==> first_peer(peers, kind, numeric_id) == Some(peers[k]),
        k == peers.len() ==> first_peer(peers, kind, numeric_id) is None,
    decreases k,
{
    if k > 0 {
        let rest = peers.drop_first();
        assert forall|i: int| 0 <= i < k - 1 implies !((#[trigger] rest[i]).kind == kind
            && rest[i].numeric_id == numeric_id) by {
            assert(rest[i] == peers[i + 1]);
        }
        assert(!(peers[0].kind == kind && peers[0].numeric_id == numeric_id));
        law_first_peer(rest, kind, numeric_id, k - 1);
        if k < peers.len() {
            assert(rest[k - 1] == peers[k]);
        }
    }
}

/// Observing a known peer changes its first record alone. The record keeps its id, its number and its
/// kind, takes fuller names, is filled where it was blank, gets the usernames of both, and has the
/// avatar and the source that came with the observation, if any did.
pub proof fn law_known_peer_is_observed(
    peers: Seq<RecordView>,
    candidate: RecordView,
    now_ms: i64,
    k: int,
    i: int,
)
    requires
        0 <= k < peers.len(),
        peers[k].kind == candidate.kind && peers[k].id == candidate.id,
        forall|j: int|
            0 <= j < k ==> !((#[trigger] peers[j]).kind == candidate.kind && peers[j].id
                == candidate.id),
    ensures
        ({
            let after = merged_peers(peers, candidate, now_ms);
            let known = peers[k];
            let now = after[k];
            &&& after.len() == peers.len()
            &&& 0 <= i < peers.len() && i != k ==> after[i] == peers[i]
            &&& now.id == known.id
            &&& now.numeric_id == known.numeric_id
            &&& now.kind == known.kind
            &&& now.title == merged_peer_name(known.title, candidate.title)
            &&& now.first_name == merged_peer_name(known.first_name, candidate.first_name)
            &&& now.last_name == merged_peer_name(known.last_name, candidate.last_name)
            &&& now.username == filled(known.username, candidate.username)
            &&& now.phone == filled(known.phone, candidate.phone)
            &&& now.usernames == united_usernames(known.usernames, candidate.usernames)
            &&& candidate.avatar is Some ==> now.avatar == candidate.avatar
            &&& candidate.avatar is None ==> now.avatar == known.avatar
            &&& candidate.source is Some ==> now.source == candidate.source
            &&& candidate.source is None ==> now.source == known.source
            &&& now.is_bot <==> known.is_bot || candidate.is_bot
            &&& now.updated_at_ms == now_ms
            &&& candidate.last_message_at_ms is None ==> now.last_message_at_ms
                == known.last_message_at_ms
            &&& known.last_message_at_ms is None ==> now.last_message_at_ms
                == candidate.last_message_at_ms
            &&& known.last_message_at_ms is Some && candidate.last_message_at_ms is Some
                ==> now.last_message_at_ms is Some && now.last_message_at_ms->0 == vstd::math::max(
                known.last_message_at_ms->0 as int,
                candidate.last_message_at_ms->0 as int,
            )
        }),
{
    lemma_peer_slot(peers, candidate.kind, candidate.id, k);
}

/// Observing a peer that is not known adds its record as it was observed, and nothing else. Peers
/// that are ordered by kind and number stay so.
pub proof fn law_new_peer_is_observed(peers: Seq<RecordView>, candidate: RecordView, now_ms: i64)
    requires
        forall|j: int|
            0 <= j < peers.len() ==> !((#[trigger] peers[j]).kind == candidate.kind && peers[j].id
                == candidate.id),
    ensures
        ({
            let after = merged_peers(peers, candidate, now_ms);
            &&& after.to_multiset() == peers.push(
                RecordView { updated_at_ms: now_ms, ..candidate },
            ).to_multiset()
            &&& forall|i: int, j: int|
                0 <= i < j < after.len() ==> {
                    let a = #[trigger] after[i];
                    let b = #[trigger] after[j];
                    text_less(a.kind, b.kind) || (a.kind == b.kind && a.numeric_id <= b.numeric_id)
                }
        }),
{
    lemma_peer_slot(peers, candidate.kind, candidate.id, peers.len() as int);
    let all = peers.push(RecordView { updated_at_ms: now_ms, ..candidate });
    let after = merged_peers(peers, candidate, now_ms);
    lemma_peer_order();
    law_sorting_keeps_items(all, peer_order());
    law_sorting_orders(all, peer_order(), |record: RecordView| true);
    let before = peer_order();
    assert forall|i: int, j: int| 0 <= i < j < after.len() implies {
        let a = #[trigger] after[i];
        let b = #[trigger] after[j];
        text_less(a.kind, b.kind) || (a.kind == b.kind && a.numeric_id <= b.numeric_id)
    } by {
        assert(!before(after[j], after[i]));
        law_order_total(after[i].kind, after[j].kind);
    }
}

/// An avatar is known where a record of the kind and the number holds one that is not blank.
pub proof fn law_known_avatars(
    peers: Seq<RecordView>,
    more: RecordView,
    kind: Seq<char>,
    numeric_id: i64,
)
    ensures
        !avatar_known(Seq::empty(), kind, numeric_id),
        avatar_known(peers.push(more), kind, numeric_id) <==> avatar_known(peers, kind, numeric_id)
            || (more.kind == kind && more.numeric_id == numeric_id && cleaned(more.avatar) is Some),
{
    let all = peers.push(more);
    assert(all[peers.len() as int] == more);
    if avatar_known(peers, kind, numeric_id) {
        let k = choose|k: int|
            0 <= k < peers.len() && (#[trigger] peers[k]).numeric_id == numeric_id && peers[k].kind
                == kind && cleaned(peers[k].avatar) is Some;
        assert(all[k] == peers[k]);
    }
    if avatar_known(all, kind, numeric_id) {
        let k = choose|k: int|
            0 <= k < all.len() && (#[trigger] all[k]).numeric_id == numeric_id && all[k].kind
                == kind && cleaned(all[k].avatar) is Some;
        if k < peers.len() {
            assert(all[k] == peers[k]);
        }
    }
}

} // verus!
