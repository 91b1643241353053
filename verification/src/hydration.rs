//! Filling the peer cache: when it is due, how far it goes, and what is recorded.

use crate::errors::ContactError;
use crate::json::{
    find_member, flat_object_text, is_flat_object, is_scalar, member, member_keys, members_view,
    number_view, parse_json, parsed_json, pretty_json, Json, JsonMember, JsonView,
};
use crate::names::{
    digits_only, full_name, handle_in_id, joined_name, phone_key, telegram_username_from_contact_id,
};
use crate::order::views;
use crate::peer_cache::{
    avatar_known, chat_record, is_recent_dialog_target_user, kind_label, merged_peers, user_record,
    CacheView, PeerKind, PeerProfile, ProfileView, RecordView, TelegramPeerCache,
};
use crate::text::{
    as_text, ascending, insert_text, joined, law_insert_text, opt_str, opt_text, put_text,
    text_less, texts,
};
use crate::text_map::{lookup, TextMap};
use vstd::prelude::*;
use vstd::string::*;

verus! {

/// How many direct contacts a list of recent contacts is built from at least.
pub const RECENT_DIALOG_TARGET_MIN: usize = 5;

/// How many direct contacts a list of recent contacts is built from at most.
pub const RECENT_DIALOG_TARGET_MAX: usize = 50;

/// How many direct contacts a contact picker is built from at most.
pub const CONTACT_PICKER_DIALOG_TARGET_MAX: usize = 120;

/// How many dialogs are looked at.
pub const RECENT_DIALOG_MAX_DIALOGS: usize = 500;

/// Whether a peer cache is filled where it is due only, or in any case.
#[derive(Debug, Clone, Copy, PartialEq, Eq, Structural)]
pub enum TelegramPeerCacheHydrationMode {
    IfNeeded,
    Force,
}

/// A number raised to a lowest and lowered to a highest one.
pub open spec fn within(n: usize, lowest: usize, highest: usize) -> usize {
    let raised = if n < lowest {
        lowest
    } else {
        n
    };
    if raised > highest {
        highest
    } else {
        raised
    }
}

/// How many direct contacts a list of recent contacts needs.
pub fn recent_dialog_target(limit: usize) -> (r: usize)
    ensures
        r == within(limit, RECENT_DIALOG_TARGET_MIN, RECENT_DIALOG_TARGET_MAX),
{
    if limit < RECENT_DIALOG_TARGET_MIN {
        RECENT_DIALOG_TARGET_MIN
    } else if limit > RECENT_DIALOG_TARGET_MAX {
        RECENT_DIALOG_TARGET_MAX
    } else {
        limit
    }
}

/// How many direct contacts a contact picker needs.
pub fn contact_picker_dialog_target(limit: usize) -> (r: usize)
    ensures
        r == within(limit, RECENT_DIALOG_TARGET_MIN, CONTACT_PICKER_DIALOG_TARGET_MAX),
{
    if limit < RECENT_DIALOG_TARGET_MIN {
        RECENT_DIALOG_TARGET_MIN
    } else if limit > CONTACT_PICKER_DIALOG_TARGET_MAX {
        CONTACT_PICKER_DIALOG_TARGET_MAX
    } else {
        limit
    }
}

/// A marker claims that enough direct contacts were seen: it is ready, it was written for a target
/// that is as high, and either that many were seen or there are no more dialogs.
pub open spec fn marker_claims(marker: JsonView, target: usize) -> bool {
    &&& marker.flag_at("ready"@) == Some(true)
    &&& match (marker.unsigned_at("target"@), marker.unsigned_at("direct_users_seen"@)) {
        (Some(marker_target), Some(seen)) => marker_target as usize >= target && (seen as usize
            >= target || marker.flag_at("dialogs_exhausted"@) == Some(true)),
        _ => false,
    }
}

/// The text of a marker claims it, where there is one.
pub open spec fn file_claims(raw: Option<Seq<char>>, target: usize) -> bool {
    match raw {
        Some(text) => match parsed_json(text) {
            Some(marker) => marker_claims(marker, target),
            None => false,
        },
        None => false,
    }
}

/// Whether a parsed marker claims that enough direct contacts were seen.
pub fn marker_claims_target(marker: &Json, target: usize) -> (r: bool)
    ensures
        r == marker_claims(marker@, target),
{
    if marker.bool_at("ready") != Some(true) {
        return false;
    }
    let marker_target = match marker.u64_at("target") {
        Some(n) => n,
        None => return false,
    };
    let seen = match marker.u64_at("direct_users_seen") {
        Some(n) => n,
        None => return false,
    };
    let exhausted = marker.bool_at("dialogs_exhausted") == Some(true);
    #[verifier::truncate]
    let marker_target = marker_target as usize;
    #[verifier::truncate]
    let seen = seen as usize;
    marker_target >= target && (seen >= target || exhausted)
}

/// Whether the text of a marker claims that enough direct contacts were seen.
pub fn recent_dialog_cache_claims_target_satisfied(raw: Option<&str>, target: usize) -> (r: bool)
    ensures
        r == file_claims(opt_str(raw), target),
{
    match raw {
        Some(text) => match parse_json(text) {
            Some(marker) => marker_claims_target(&marker, target),
            None => false,
        },
        None => false,
    }
}

/// Whether a marker claims enough contacts for a list of recent contacts.
pub fn telegram_recent_dialog_cache_claims_target_satisfied(raw: Option<&str>, limit: usize) -> (r:
    bool)
    ensures
        r == file_claims(
            opt_str(raw),
            within(limit, RECENT_DIALOG_TARGET_MIN, RECENT_DIALOG_TARGET_MAX),
        ),
{
    recent_dialog_cache_claims_target_satisfied(raw, recent_dialog_target(limit))
}

/// Whether a marker claims enough contacts for a contact picker.
pub fn telegram_contact_picker_dialog_cache_claims_target_satisfied(
    raw: Option<&str>,
    limit: usize,
) -> (r: bool)
    ensures
        r == file_claims(
            opt_str(raw),
            within(limit, RECENT_DIALOG_TARGET_MIN, CONTACT_PICKER_DIALOG_TARGET_MAX),
        ),
{
    recent_dialog_cache_claims_target_satisfied(raw, contact_picker_dialog_target(limit))
}

/// Whether the recent contacts of an account are complete.
pub fn telegram_recent_contacts_ready(raw: Option<&str>, limit: usize) -> (r: bool)
    ensures
        r == file_claims(
            opt_str(raw),
            within(limit, RECENT_DIALOG_TARGET_MIN, RECENT_DIALOG_TARGET_MAX),
        ),
{
    telegram_recent_dialog_cache_claims_target_satisfied(raw, limit)
}

/// How far the dialogs of an account are to be looked at for a list of recent contacts: not at all
/// where enough contacts were seen, nor without a session.
pub fn hydrate_telegram_recent_peer_cache_if_needed(
    raw: Option<&str>,
    has_session: bool,
    limit: usize,
) -> (r: Option<usize>)
    ensures
        ({
            let target = within(limit, RECENT_DIALOG_TARGET_MIN, RECENT_DIALOG_TARGET_MAX);
            r == (if !file_claims(opt_str(raw), target) && has_session {
                Some(target)
            } else {
                None
            })
        }),
        !has_session ==> r is None,
        has_session && raw is None ==> r is Some,
        r is Some ==> 5 <= r->0 <= 50 && (5 <= limit <= 50 ==> r->0 == limit),
{
    if telegram_recent_dialog_cache_claims_target_satisfied(raw, limit) || !has_session {
        None
    } else {
        Some(recent_dialog_target(limit))
    }
}

/// How far the dialogs of an account are to be looked at for a contact picker.
pub fn hydrate_telegram_contact_picker_peer_cache_if_needed(
    raw: Option<&str>,
    has_session: bool,
    limit: usize,
) -> (r: Option<usize>)
    ensures
        ({
            let target = within(limit, RECENT_DIALOG_TARGET_MIN, CONTACT_PICKER_DIALOG_TARGET_MAX);
            r == (if !file_claims(opt_str(raw), target) && has_session {
                Some(target)
            } else {
                None
            })
        }),
        !has_session ==> r is None,
        has_session && raw is None ==> r is Some,
        r is Some ==> 5 <= r->0 <= 120 && (5 <= limit <= 120 ==> r->0 == limit),
{
    if telegram_contact_picker_dialog_cache_claims_target_satisfied(raw, limit) || !has_session {
        None
    } else {
        Some(contact_picker_dialog_target(limit))
    }
}

/// How far the dialogs of an account are looked at again: where its recent contacts are claimed to
/// be complete, and yet fewer of them were found than are asked for.
pub fn recent_cache_repair_target(
    account_ready: bool,
    candidate_count: usize,
    raw: Option<&str>,
    limit: usize,
) -> (r: Option<usize>)
    ensures
        ({
            let target = within(limit, RECENT_DIALOG_TARGET_MIN, RECENT_DIALOG_TARGET_MAX);
            r == (if account_ready && candidate_count < limit && file_claims(
                opt_str(raw),
                target,
            ) {
                Some(target)
            } else {
                None
            })
        }),
        !account_ready || raw is None || candidate_count >= limit ==> r is None,
        r is Some ==> 5 <= r->0 <= 50 && (5 <= limit <= 50 ==> r->0 == limit),
{
    if account_ready && candidate_count < limit
        && telegram_recent_dialog_cache_claims_target_satisfied(raw, limit) {
        Some(recent_dialog_target(limit))
    } else {
        None
    }
}

/// What a contact picker asks of an account.
#[derive(Debug)]
pub struct PickerAccount {
    pub has_session: bool,
    /// The text of the marker, where there is one.
    pub marker: Option<String>,
}

/// The account is complete enough for a contact picker. One without a session is passed over.
pub open spec fn picker_account_ready(account: PickerAccount, limit: usize) -> bool {
    !account.has_session || file_claims(
        opt_text(account.marker),
        within(limit, RECENT_DIALOG_TARGET_MIN, CONTACT_PICKER_DIALOG_TARGET_MAX),
    )
}

/// Whether all accounts are complete enough for a contact picker.
pub fn telegram_contact_picker_ready(accounts: &Vec<PickerAccount>, limit: usize) -> (r: bool)
    ensures
        r == forall|i: int|
            0 <= i < accounts@.len() ==> picker_account_ready(#[trigger] accounts@[i], limit),
{
    let mut ready = true;
    for i in 0..accounts.len()
        invariant
            ready == forall|j: int|
                0 <= j < i ==> picker_account_ready(#[trigger] accounts@[j], limit),
    {
        if accounts[i].has_session && !telegram_contact_picker_dialog_cache_claims_target_satisfied(
            as_text(&accounts[i].marker),
            limit,
        ) {
            ready = false;
        }
    }
    ready
}

/// The peer cache holds no peers.
pub open spec fn cache_lacks_peers(raw: Option<Seq<char>>) -> bool {
    match raw {
        Some(text) => match parsed_json(text) {
            Some(cache) => match cache.member("peers"@) {
                Some(peers) => match peers.items() {
                    Some(items) => items.len() == 0,
                    None => true,
                },
                None => true,
            },
            None => true,
        },
        None => true,
    }
}

/// Whether a parsed cache holds no peers.
pub fn cache_is_without_peers(cache: &Json) -> (r: bool)
    ensures
        r == (match cache@.member("peers"@) {
            Some(peers) => match peers.items() {
                Some(items) => items.len() == 0,
                None => true,
            },
            None => true,
        }),
{
    match cache.get("peers") {
        Some(peers) => match peers.as_array() {
            Some(items) => items.len() == 0,
            None => true,
        },
        None => true,
    }
}

/// Whether the peer cache of an account is due to be filled: there is a session, and the cache holds
/// no peers.
pub fn telegram_peer_cache_needs_hydration(has_session: bool, raw: Option<&str>) -> (r: bool)
    ensures
        r == (has_session && cache_lacks_peers(opt_str(raw))),
        !has_session ==> !r,
        has_session && raw is None ==> r,
{
    if !has_session {
        return false;
    }
    match raw {
        Some(text) => match parse_json(text) {
            Some(cache) => cache_is_without_peers(&cache),
            None => true,
        },
        None => true,
    }
}

/// Whether the peer cache of an account is filled.
pub fn hydrate_telegram_peer_cache(
    mode: TelegramPeerCacheHydrationMode,
    has_session: bool,
    raw: Option<&str>,
) -> (r: bool)
    ensures
        r == (mode == TelegramPeerCacheHydrationMode::Force || (has_session && cache_lacks_peers(
            opt_str(raw),
        ))),
        mode == TelegramPeerCacheHydrationMode::Force || (has_session && raw is None) ==> r,
        mode == TelegramPeerCacheHydrationMode::IfNeeded && !has_session ==> !r,
{
    mode == TelegramPeerCacheHydrationMode::Force || telegram_peer_cache_needs_hydration(
        has_session,
        raw,
    )
}

/// The marker that is written once dialogs were looked at.
pub open spec fn marker_view(
    direct_users_seen: usize,
    target: usize,
    dialogs_exhausted: bool,
    now_ms: i64,
) -> JsonView {
    JsonView::Object(
        seq![
            ("dialogs_exhausted"@, JsonView::Bool(dialogs_exhausted)),
            ("direct_users_seen"@, number_view(direct_users_seen as int)),
            ("hydrated_at_ms"@, number_view(now_ms as int)),
            ("ready"@, JsonView::Bool(true)),
            ("target"@, number_view(target as int)),
        ],
    )
}

proof fn lemma_marker_is_flat(
    direct_users_seen: usize,
    target: usize,
    dialogs_exhausted: bool,
    now_ms: i64,
)
    ensures
        is_flat_object(marker_view(direct_users_seen, target, dialogs_exhausted, now_ms)),
{
    reveal_strlit("dialogs_exhausted");
    reveal_strlit("direct_users_seen");
    reveal_strlit("hydrated_at_ms");
    reveal_strlit("ready");
    reveal_strlit("target");
    reveal_with_fuel(text_less, 4);
    let members = marker_view(direct_users_seen, target, dialogs_exhausted, now_ms)->Object_0;
    let keys = member_keys(members);
    assert(keys =~= seq![
        "dialogs_exhausted"@,
        "direct_users_seen"@,
        "hydrated_at_ms"@,
        "ready"@,
        "target"@,
    ]);
    assert(text_less("dialogs_exhausted"@, "direct_users_seen"@)) by {
        let a = "dialogs_exhausted"@;
        let b = "direct_users_seen"@;
        assert(a[0] == b[0] && a.drop_first()[0] == b.drop_first()[0]);
        assert(a.drop_first().drop_first()[0] == 'a' && b.drop_first().drop_first()[0] == 'r');
    }
    assert(is_scalar(number_view(direct_users_seen as int)));
    assert(is_scalar(number_view(now_ms as int)));
    assert(is_scalar(number_view(target as int)));
}

/// The text of the marker that is written once dialogs were looked at. The marker is read back as it
/// was written: it claims enough contacts for every target up to its own that is covered by the
/// contacts seen, or for every target up to its own where the dialogs are exhausted.
pub fn write_recent_dialog_cache_marker_with_exhausted(
    direct_users_seen: usize,
    target: usize,
    dialogs_exhausted: bool,
    now_ms: i64,
) -> (r: String)
    ensures
        pretty_json(marker_view(direct_users_seen, target, dialogs_exhausted, now_ms)) == Some(r@),
        parsed_json(r@) == Some(
            marker_view(direct_users_seen, target, dialogs_exhausted, now_ms),
        ),
        forall|asked: usize| #[trigger]
            file_claims(Some(r@), asked) <==> (asked <= target && (asked <= direct_users_seen
                || dialogs_exhausted)),
{
    let mut members: Vec<JsonMember> = Vec::new();
    members.push(member("dialogs_exhausted", Json::Bool(dialogs_exhausted)));
    members.push(member("direct_users_seen", Json::of_usize(direct_users_seen)));
    members.push(member("hydrated_at_ms", Json::of_i64(now_ms)));
    members.push(member("ready", Json::Bool(true)));
    members.push(member("target", Json::of_usize(target)));
    let ghost wanted = marker_view(direct_users_seen, target, dialogs_exhausted, now_ms);
    assert(members_view(members@) =~= wanted->Object_0);
    proof {
        lemma_marker_is_flat(direct_users_seen, target, dialogs_exhausted, now_ms);
        assert forall|asked: usize|
            marker_claims(wanted, asked) <==> (asked <= target && (asked <= direct_users_seen
                || dialogs_exhausted)) by {
            law_marker_read_back(direct_users_seen, target, dialogs_exhausted, now_ms, asked);
        }
    }
    flat_object_text(&Json::of_members(members))
}

/// The text of the marker of a run that saw enough contacts or was broken off.
pub fn write_recent_dialog_cache_marker(direct_users_seen: usize, target: usize, now_ms: i64) -> (r:
    String)
    ensures
        pretty_json(marker_view(direct_users_seen, target, false, now_ms)) == Some(r@),
        parsed_json(r@) == Some(marker_view(direct_users_seen, target, false, now_ms)),
        forall|asked: usize| #[trigger]
            file_claims(Some(r@), asked) <==> asked <= target && asked <= direct_users_seen,
{
    write_recent_dialog_cache_marker_with_exhausted(direct_users_seen, target, false, now_ms)
}

/// The text of the marker of a run that saw all dialogs.
pub fn write_recent_dialog_cache_exhausted_marker(
    direct_users_seen: usize,
    target: usize,
    now_ms: i64,
) -> (r: String)
    ensures
        pretty_json(marker_view(direct_users_seen, target, true, now_ms)) == Some(r@),
        parsed_json(r@) == Some(marker_view(direct_users_seen, target, true, now_ms)),
        forall|asked: usize| #[trigger] file_claims(Some(r@), asked) <==> asked <= target,
{
    write_recent_dialog_cache_marker_with_exhausted(direct_users_seen, target, true, now_ms)
}

/// How a run that fills a cache ended.
#[derive(Debug)]
pub enum HydrateOutcome {
    Done,
    Failed(String),
    TimedOut,
    Ended,
}

/// What comes of a run that fills a cache. `seconds` is the time that was waited for it.
pub fn wait_for_telegram_peer_cache_hydrate_result(outcome: HydrateOutcome, seconds: &str) -> (r:
    Result<(), ContactError>)
    ensures
        match outcome {
            HydrateOutcome::Done => r is Ok,
            HydrateOutcome::Failed(message) => r == Err::<(), ContactError>(
                ContactError::HydrateFailed(message),
            ),
            HydrateOutcome::TimedOut => r matches Err(ContactError::HydrateTimedOut(waited))
                && waited@ == seconds@,
            HydrateOutcome::Ended => r == Err::<(), ContactError>(ContactError::HydrateEnded),
        },
{
    match outcome {
        HydrateOutcome::Done => Ok(()),
        HydrateOutcome::Failed(message) => Err(ContactError::HydrateFailed(message)),
        HydrateOutcome::TimedOut => Err(ContactError::HydrateTimedOut(seconds.to_owned())),
        HydrateOutcome::Ended => Err(ContactError::HydrateEnded),
    }
}

/// How far looking at the dialogs of an account went.
#[derive(Debug, Clone, Copy, PartialEq, Eq, Structural)]
pub struct RecentDialogPeerCacheHydration {
    pub direct_users_seen: usize,
    pub dialogs_seen: usize,
    pub target_direct_users: usize,
    pub max_dialogs: usize,
    pub dialogs_exhausted: bool,
}

/// What asking for the next dialog gave.
#[derive(Debug)]
pub enum DialogEvent {
    /// A dialog, with the time of its last message.
    Dialog(PeerProfile, Option<i64>),
    /// There are no more dialogs.
    Exhausted,
    /// The dialogs could not be read.
    Failed,
}

/// The dialog is with a person and has a message.
pub open spec fn counts_as_direct(chat: ProfileView, last_message_at_ms: Option<i64>) -> bool {
    chat.kind == PeerKind::User && last_message_at_ms is Some && !chat.bot && chat.id != 777000
}

/// More dialogs are to be looked at.
pub open spec fn wants_dialog(progress: RecentDialogPeerCacheHydration) -> bool {
    progress.dialogs_seen < progress.max_dialogs && progress.direct_users_seen
        < progress.target_direct_users
}

/// The progress after one more dialog.
pub open spec fn one_more_dialog(progress: RecentDialogPeerCacheHydration, direct: bool) ->
    RecentDialogPeerCacheHydration {
    RecentDialogPeerCacheHydration {
        dialogs_seen: (progress.dialogs_seen + 1) as usize,
        direct_users_seen: if direct {
            (progress.direct_users_seen + 1) as usize
        } else {
            progress.direct_users_seen
        },
        ..progress
    }
}

/// No more dialogs are seen than there may be, and no more direct contacts than are looked for or
/// than dialogs were seen.
pub open spec fn progress_is_sound(progress: RecentDialogPeerCacheHydration) -> bool {
    &&& progress.dialogs_seen <= progress.max_dialogs
    &&& progress.direct_users_seen <= progress.target_direct_users
    &&& progress.direct_users_seen <= progress.dialogs_seen
}

/// Looking at one more dialog keeps the progress sound and brings its end nearer.
pub proof fn law_dialogs_come_to_an_end(progress: RecentDialogPeerCacheHydration, direct: bool)
    requires
        wants_dialog(progress),
        progress_is_sound(progress),
    ensures
        progress_is_sound(one_more_dialog(progress, direct)),
        progress.max_dialogs - one_more_dialog(progress, direct).dialogs_seen
            < progress.max_dialogs - progress.dialogs_seen,
{
}

/// Looking at dialogs starts with none seen. At least one direct contact is looked for, and at least
/// as many dialogs are looked at as contacts are looked for.
pub open spec fn no_dialogs_yet(target_direct_users: usize, max_dialogs: usize) ->
    RecentDialogPeerCacheHydration {
    let target = if target_direct_users < 1 {
        1
    } else {
        target_direct_users
    };
    RecentDialogPeerCacheHydration {
        direct_users_seen: 0,
        dialogs_seen: 0,
        target_direct_users: target,
        max_dialogs: if max_dialogs < target {
            target
        } else {
            max_dialogs
        },
        dialogs_exhausted: false,
    }
}

/// The progress before the first dialog is looked at.
pub fn start_recent_dialogs(target_direct_users: usize, max_dialogs: usize) -> (r:
    RecentDialogPeerCacheHydration)
    ensures
        r == no_dialogs_yet(target_direct_users, max_dialogs),
        progress_is_sound(r),
        wants_dialog(r),
{
    let target = if target_direct_users < 1 {
        1
    } else {
        target_direct_users
    };
    RecentDialogPeerCacheHydration {
        direct_users_seen: 0,
        dialogs_seen: 0,
        target_direct_users: target,
        max_dialogs: if max_dialogs < target {
            target
        } else {
            max_dialogs
        },
        dialogs_exhausted: false,
    }
}

/// Whether more dialogs are to be looked at.
pub fn wants_more_dialogs(progress: &RecentDialogPeerCacheHydration) -> (r: bool)
    ensures
        r == wants_dialog(*progress),
{
    progress.dialogs_seen < progress.max_dialogs && progress.direct_users_seen
        < progress.target_direct_users
}

/// A dialog, with the time of its last message and the time at which it was looked at.
pub ghost struct DialogView {
    pub chat: ProfileView,
    pub last_message_at_ms: Option<i64>,
    pub seen_at_ms: i64,
}

/// The peers after a dialog was looked at.
pub open spec fn with_dialog(peers: Seq<RecordView>, dialog: DialogView) -> Seq<RecordView> {
    merged_peers(
        peers,
        RecordView {
            last_message_at_ms: dialog.last_message_at_ms,
            ..chat_record(dialog.chat, "recent_dialog"@, dialog.seen_at_ms)
        },
        dialog.seen_at_ms,
    )
}

/// Takes in what asking for the next dialog gave, and tells whether to ask again.
pub fn take_dialog(
    cache: &mut TelegramPeerCache,
    progress: &mut RecentDialogPeerCacheHydration,
    event: DialogEvent,
    now_ms: i64,
) -> (r: bool)
    requires
        wants_dialog(*old(progress)),
    ensures
        match event {
            DialogEvent::Dialog(chat, last_message_at_ms) => {
                &&& final(cache)@ == (CacheView {
                    version: old(cache)@.version,
                    peers: with_dialog(
                        old(cache)@.peers,
                        (DialogView { chat: chat@, last_message_at_ms, seen_at_ms: now_ms }),
                    ),
                })
                &&& *final(progress) == one_more_dialog(
                    *old(progress),
                    counts_as_direct(chat@, last_message_at_ms),
                )
                &&& r == wants_dialog(*final(progress))
            },
            DialogEvent::Exhausted => !r && final(cache)@ == old(cache)@ && *final(progress) == (
            RecentDialogPeerCacheHydration { dialogs_exhausted: true, ..*old(progress) }),
            DialogEvent::Failed => !r && final(cache)@ == old(cache)@ && *final(progress)
                == *old(progress),
        },
{
    match event {
        DialogEvent::Dialog(chat, last_message_at_ms) => {
            progress.dialogs_seen = progress.dialogs_seen + 1;
            cache.observe_chat_with_last_message_at_ms(
                &chat,
                "recent_dialog",
                last_message_at_ms,
                now_ms,
            );
            let is_user = match chat.kind {
                PeerKind::User => true,
                _ => false,
            };
            if is_user && is_recent_dialog_target_user(
                chat.id,
                chat.bot,
                last_message_at_ms.is_some(),
            ) {
                progress.direct_users_seen = progress.direct_users_seen + 1;
            }
            wants_more_dialogs(progress)
        },
        DialogEvent::Exhausted => {
            progress.dialogs_exhausted = true;
            false
        },
        DialogEvent::Failed => false,
    }
}

/// The peers after several dialogs were looked at, one after another.
pub open spec fn with_dialogs(peers: Seq<RecordView>, dialogs: Seq<DialogView>) -> Seq<RecordView>
    decreases dialogs.len(),
{
    if dialogs.len() == 0 {
        peers
    } else {
        with_dialogs(with_dialog(peers, dialogs[0]), dialogs.drop_first())
    }
}

/// How many of several dialogs are with a person and have a message.
pub open spec fn direct_dialogs(dialogs: Seq<DialogView>) -> int
    decreases dialogs.len(),
{
    if dialogs.len() == 0 {
        0
    } else {
        direct_dialogs(dialogs.drop_first()) + if counts_as_direct(
            dialogs[0].chat,
            dialogs[0].last_message_at_ms,
        ) {
            1int
        } else {
            0int
        }
    }
}

/// What looking at dialogs comes to, as long as more are wanted. `dialogs` are those that asking for
/// the next one gives; behind them either there are no more, or they could not be read.
pub open spec fn dialogs_run(
    peers: Seq<RecordView>,
    progress: RecentDialogPeerCacheHydration,
    dialogs: Seq<DialogView>,
    no_more: bool,
) -> (Seq<RecordView>, RecentDialogPeerCacheHydration)
    decreases dialogs.len(),
{
    if !wants_dialog(progress) {
        (peers, progress)
    } else if dialogs.len() == 0 {
        if no_more {
            (peers, RecentDialogPeerCacheHydration { dialogs_exhausted: true, ..progress })
        } else {
            (peers, progress)
        }
    } else {
        dialogs_run(
            with_dialog(peers, dialogs[0]),
            one_more_dialog(
                progress,
                counts_as_direct(dialogs[0].chat, dialogs[0].last_message_at_ms),
            ),
            dialogs.drop_first(),
            no_more,
        )
    }
}

proof fn lemma_dialogs_run(
    peers: Seq<RecordView>,
    progress: RecentDialogPeerCacheHydration,
    dialogs: Seq<DialogView>,
    no_more: bool,
)
    requires
        progress_is_sound(progress),
        !progress.dialogs_exhausted,
    ensures
        ({
            let (after, end) = dialogs_run(peers, progress, dialogs, no_more);
            let n = end.dialogs_seen - progress.dialogs_seen;
            &&& 0 <= n <= dialogs.len()
            &&& end.direct_users_seen == progress.direct_users_seen + direct_dialogs(
                dialogs.take(n),
            )
            &&& end.target_direct_users == progress.target_direct_users
            &&& end.max_dialogs == progress.max_dialogs
            &&& progress_is_sound(end)
            &&& forall|m: int|
                #![trigger dialogs.take(m)]
                0 <= m < n ==> progress.dialogs_seen + m < progress.max_dialogs
                    && progress.direct_users_seen + direct_dialogs(dialogs.take(m))
                    < progress.target_direct_users
            &&& wants_dialog(end) ==> n == dialogs.len()
            &&& end.dialogs_exhausted == (no_more && wants_dialog(end))
            &&& after == with_dialogs(peers, dialogs.take(n))
        }),
    decreases dialogs.len(),
{
    let (after, end) = dialogs_run(peers, progress, dialogs, no_more);
    let n = end.dialogs_seen - progress.dialogs_seen;
    if wants_dialog(progress) && dialogs.len() > 0 {
        let first = dialogs[0];
        let rest = dialogs.drop_first();
        let next = one_more_dialog(
            progress,
            counts_as_direct(first.chat, first.last_message_at_ms),
        );
        lemma_dialogs_run(with_dialog(peers, first), next, rest, no_more);
        assert(dialogs.take(n)[0] == first);
        assert(dialogs.take(n).drop_first() =~= rest.take(n - 1));
        assert forall|m: int|
            #![trigger dialogs.take(m)]
            0 <= m < n implies progress.dialogs_seen + m < progress.max_dialogs
            && progress.direct_users_seen + direct_dialogs(dialogs.take(m))
            < progress.target_direct_users by {
            if m > 0 {
                assert(dialogs.take(m)[0] == first);
                assert(dialogs.take(m).drop_first() =~= rest.take(m - 1));
            }
        }
    } else {
        assert(n == 0);
        assert(dialogs.take(0).len() == 0);
    }
}

/// Looking at the dialogs of an account stops at the first of them with which as many were seen as
/// may be, or as many direct contacts as are looked for, and else at the last one. The direct
/// contacts among the dialogs up to there are counted, and their peers are in the cache. The dialogs
/// are exhausted exactly where there are no more and neither number was reached.
pub proof fn law_dialogs_run(
    peers: Seq<RecordView>,
    target_direct_users: usize,
    max_dialogs: usize,
    dialogs: Seq<DialogView>,
    no_more: bool,
)
    ensures
        ({
            let start = no_dialogs_yet(target_direct_users, max_dialogs);
            let (after, end) = dialogs_run(peers, start, dialogs, no_more);
            let n = end.dialogs_seen as int;
            let limit = start.max_dialogs;
            let target = start.target_direct_users;
            &&& n <= dialogs.len() && n <= limit
            &&& end.direct_users_seen == direct_dialogs(dialogs.take(n)) <= target
            &&& n == dialogs.len() || n == limit || direct_dialogs(dialogs.take(n)) == target
            &&& forall|m: int|
                #![trigger dialogs.take(m)]
                0 <= m < n ==> m < limit && direct_dialogs(dialogs.take(m)) < target
            &&& end.dialogs_exhausted == (no_more && n < limit && end.direct_users_seen < target)
            &&& end.max_dialogs == limit && end.target_direct_users == target
            &&& after == with_dialogs(peers, dialogs.take(n))
        }),
{
    lemma_dialogs_run(
        peers,
        no_dialogs_yet(target_direct_users, max_dialogs),
        dialogs,
        no_more,
    );
}

/// A contact of the phone book.
#[derive(Debug)]
pub struct SavedPhoneContact {
    pub first_name: String,
    pub last_name: String,
    pub phone: String,
}

pub ghost struct PhoneView {
    pub first_name: Seq<char>,
    pub last_name: Seq<char>,
    pub phone: Seq<char>,
}

impl View for SavedPhoneContact {
    type V = PhoneView;

    open spec fn view(&self) -> PhoneView {
        PhoneView { first_name: self.first_name@, last_name: self.last_name@, phone: self.phone@ }
    }
}

/// The names in a phone book by the digits of their numbers. Of two names with the same number the
/// later one counts.
pub open spec fn phone_names(contacts: Seq<PhoneView>) -> Map<Seq<char>, Seq<char>>
    decreases contacts.len(),
{
    if contacts.len() == 0 {
        Map::empty()
    } else {
        let before = phone_names(contacts.drop_last());
        let contact = contacts.last();
        match full_name(contact.first_name, Some(contact.last_name)) {
            Some(name) => before.insert(digits_only(contact.phone), name),
            None => before,
        }
    }
}

/// The names in a phone book by the digits of their numbers.
pub fn saved_phone_contact_names(contacts: &Vec<SavedPhoneContact>) -> (r: TextMap<String>)
    ensures
        r@ == phone_names(views(contacts@)),
{
    let ghost all = views(contacts@);
    let mut names: TextMap<String> = TextMap::new();
    for i in 0..contacts.len()
        invariant
            all == views(contacts@),
            names@ == phone_names(all.take(i as int)),
    {
        assert(all.take(i + 1).drop_last() =~= all.take(i as int));
        assert(all.take(i + 1).last() == contacts@[i as int]@);
        let contact = &contacts[i];
        if let Some(name) = joined_name(
            contact.first_name.as_str(),
            Some(contact.last_name.as_str()),
        ) {
            names.insert(phone_key(contact.phone.as_str()), name);
        }
    }
    assert(all.take(all.len() as int) =~= all);
    names
}

/// The name that a user has in the phone book.
pub open spec fn phone_name_of(user: ProfileView, names: Map<Seq<char>, Seq<char>>) -> Option<
    Seq<char>,
> {
    match user.phone {
        Some(phone) => lookup(names, digits_only(phone)),
        None => None,
    }
}

/// The peers after the users of a contact book were observed.
pub open spec fn with_contact_book(
    peers: Seq<RecordView>,
    users: Seq<ProfileView>,
    names: Map<Seq<char>, Seq<char>>,
    now_ms: i64,
) -> Seq<RecordView>
    decreases users.len(),
{
    if users.len() == 0 {
        peers
    } else {
        let before = with_contact_book(peers, users.drop_last(), names, now_ms);
        let user = users.last();
        merged_peers(
            before,
            user_record(user, phone_name_of(user, names), "contacts"@, now_ms),
            now_ms,
        )
    }
}

/// Records the users of a contact book under the names that they were saved with.
pub fn hydrate_contact_book(
    cache: &mut TelegramPeerCache,
    users: &Vec<PeerProfile>,
    saved_names: &TextMap<String>,
    now_ms: i64,
)
    ensures
        final(cache)@ == (CacheView {
            version: old(cache)@.version,
            peers: with_contact_book(old(cache)@.peers, views(users@), saved_names@, now_ms),
        }),
{
    let ghost all = views(users@);
    for i in 0..users.len()
        invariant
            all == views(users@),
            cache@ == (CacheView {
                version: old(cache)@.version,
                peers: with_contact_book(
                    old(cache)@.peers,
                    all.take(i as int),
                    saved_names@,
                    now_ms,
                ),
            }),
    {
        assert(all.take(i + 1).drop_last() =~= all.take(i as int));
        assert(all.take(i + 1).last() == users@[i as int]@);
        let user = &users[i];
        let saved_name = match &user.phone {
            Some(phone) => match saved_names.get(phone_key(phone.as_str()).as_str()) {
                Some(name) => Some(name.as_str()),
                None => None,
            },
            None => None,
        };
        cache.observe_user(user, saved_name, "contacts", now_ms);
    }
    assert(all.take(all.len() as int) =~= all);
}

/// The public handles in contact ids, added to a sorted list.
pub open spec fn with_handles_in(list: Seq<Seq<char>>, contact_ids: Seq<Seq<char>>) -> Seq<
    Seq<char>,
>
    decreases contact_ids.len(),
{
    if contact_ids.len() == 0 {
        list
    } else {
        let before = with_handles_in(list, contact_ids.drop_last());
        match handle_in_id(contact_ids.last()) {
            Some(handle) => insert_text(before, handle),
            None => before,
        }
    }
}

/// The public handles in the ids of saved contacts.
pub open spec fn handles_of_contacts(contacts: Seq<Seq<Seq<char>>>) -> Seq<Seq<char>>
    decreases contacts.len(),
{
    if contacts.len() == 0 {
        Seq::empty()
    } else {
        with_handles_in(handles_of_contacts(contacts.drop_last()), contacts.last())
    }
}

pub open spec fn id_lists(contacts: Seq<Vec<String>>) -> Seq<Seq<Seq<char>>> {
    contacts.map_values(|ids: Vec<String>| texts(ids@))
}

/// The usernames that saved contacts are resolved by: the public handles in their ids, sorted and
/// without repetition.
pub fn saved_contact_usernames(contacts: &Vec<Vec<String>>) -> (r: Vec<String>)
    ensures
        texts(r@) == handles_of_contacts(id_lists(contacts@)),
{
    let ghost all = id_lists(contacts@);
    let mut usernames: Vec<String> = Vec::new();
    assert(texts(usernames@) =~= handles_of_contacts(all.take(0)));
    for i in 0..contacts.len()
        invariant
            all == id_lists(contacts@),
            texts(usernames@) == handles_of_contacts(all.take(i as int)),
    {
        assert(all.take(i + 1).drop_last() =~= all.take(i as int));
        let ghost ids = texts(contacts@[i as int]@);
        assert(all.take(i + 1).last() == ids);
        let ghost start = texts(usernames@);
        let contact = &contacts[i];
        for k in 0..contact.len()
            invariant
                ids == texts(contact@),
                texts(usernames@) == with_handles_in(start, ids.take(k as int)),
        {
            assert(ids.take(k + 1).drop_last() =~= ids.take(k as int));
            assert(ids.take(k + 1).last() == contact@[k as int]@);
            if let Some(username) = telegram_username_from_contact_id(contact[k].as_str()) {
                put_text(&mut usernames, username);
            }
        }
        assert(ids.take(ids.len() as int) =~= ids);
    }
    assert(all.take(all.len() as int) =~= all);
    usernames
}

/// Records the peer that a saved contact resolved to. An avatar is to be fetched where the result
/// says so.
pub fn observe_saved_contact(cache: &mut TelegramPeerCache, chat: &PeerProfile, now_ms: i64) -> (r:
    bool)
    ensures
        final(cache)@ == (CacheView {
            version: old(cache)@.version,
            peers: merged_peers(
                old(cache)@.peers,
                chat_record(chat@, "saved_contact"@, now_ms),
                now_ms,
            ),
        }),
        r == !avatar_known(final(cache)@.peers, kind_label(chat.kind), chat.id),
{
    cache.observe_chat(chat, "saved_contact", now_ms);
    !cache.has_avatar(chat)
}

/// Records an avatar that was fetched, where one was found and none is known. Tells whether it was
/// recorded.
pub fn hydrate_chat_avatar(
    cache: &mut TelegramPeerCache,
    chat: &PeerProfile,
    avatar: Option<String>,
    source: &str,
    now_ms: i64,
) -> (r: bool)
    ensures
        r == (avatar is Some && !avatar_known(
            old(cache)@.peers,
            kind_label(chat.kind),
            chat.id,
        )),
        final(cache)@ == (if r {
            CacheView {
                version: old(cache)@.version,
                peers: merged_peers(
                    old(cache)@.peers,
                    RecordView {
                        avatar: opt_text(avatar),
                        ..chat_record(chat@, source@, now_ms)
                    },
                    now_ms,
                ),
            }
        } else {
            old(cache)@
        }),
        avatar is None ==> !r && final(cache)@ == old(cache)@,
{
    if avatar.is_none() || cache.has_avatar(chat) {
        return false;
    }
    cache.observe_chat_with_avatar(chat, avatar, source, now_ms);
    true
}

/// An avatar that was fetched for a chat.
#[derive(Debug)]
pub struct FetchedAvatar {
    pub chat: PeerProfile,
    pub avatar: String,
}

/// The peers after avatars were fetched for them.
pub open spec fn with_avatars(
    peers: Seq<RecordView>,
    fetched: Seq<FetchedAvatar>,
    now_ms: i64,
) -> Seq<RecordView>
    decreases fetched.len(),
{
    if fetched.len() == 0 {
        peers
    } else {
        merged_peers(
            with_avatars(peers, fetched.drop_last(), now_ms),
            RecordView {
                avatar: Some(fetched.last().avatar@),
                ..chat_record(fetched.last().chat@, "dialog"@, now_ms)
            },
            now_ms,
        )
    }
}

/// Records the avatars that were fetched for chats.
pub fn hydrate_chat_avatars_deferred(
    cache: &mut TelegramPeerCache,
    fetched: &Vec<FetchedAvatar>,
    now_ms: i64,
)
    ensures
        final(cache)@ == (CacheView {
            version: old(cache)@.version,
            peers: with_avatars(old(cache)@.peers, fetched@, now_ms),
        }),
{
    for i in 0..fetched.len()
        invariant
            cache@ == (CacheView {
                version: old(cache)@.version,
                peers: with_avatars(old(cache)@.peers, fetched@.take(i as int), now_ms),
            }),
    {
        assert(fetched@.take(i + 1).drop_last() =~= fetched@.take(i as int));
        assert(fetched@.take(i + 1).last() == fetched@[i as int]);
        cache.observe_chat_with_avatar(
            &fetched[i].chat,
            Some(fetched[i].avatar.clone()),
            "dialog",
            now_ms,
        );
    }
    assert(fetched@.take(fetched@.len() as int) =~= fetched@);
}

/// The character that stands for six bits in Base64.
pub open spec fn base64_char(six_bits: int) -> char {
    if six_bits < 26 {
        (65 + six_bits) as u8 as char
    } else if six_bits < 52 {
        (97 + six_bits - 26) as u8 as char
    } else if six_bits < 62 {
        (48 + six_bits - 52) as u8 as char
    } else if six_bits == 62 {
        '+'
    } else {
        '/'
    }
}

/// Bytes in Base64: four characters for every three bytes, with padding at the end.
pub open spec fn base64_text(bytes: Seq<u8>) -> Seq<char>
    decreases bytes.len(),
{
    if bytes.len() == 0 {
        Seq::empty()
    } else if bytes.len() == 1 {
        let n = bytes[0] as int * 16;
        seq![base64_char(n / 64), base64_char(n % 64), '=', '=']
    } else if bytes.len() == 2 {
        let n = (bytes[0] as int * 256 + bytes[1] as int) * 4;
        seq![base64_char(n / 4096), base64_char((n / 64) % 64), base64_char(n % 64), '=']
    } else {
        let n = (bytes[0] as int * 256 + bytes[1] as int) * 256 + bytes[2] as int;
        seq![
            base64_char(n / 262144),
            base64_char((n / 4096) % 64),
            base64_char((n / 64) % 64),
            base64_char(n % 64),
        ] + base64_text(bytes.skip(3))
    }
}

/// `base64::Engine::encode` of `base64::engine::general_purpose::STANDARD`: the standard alphabet,
/// with padding. The text has to fit into memory.
#[verifier::external_body]
fn encode_base64(bytes: &Vec<u8>) -> (r: String)
    requires
        bytes@.len() / 3 * 4 + 4 <= isize::MAX,
    ensures
        r@ == base64_text(bytes@),
{
    base64::Engine::encode(&base64::engine::general_purpose::STANDARD, bytes)
}

/// The data URI of an avatar; none for an empty image.
pub fn avatar_data_uri(bytes: &Vec<u8>) -> (r: Option<String>)
    requires
        bytes@.len() / 3 * 4 + 4 <= isize::MAX,
    ensures
        opt_text(r) == (if bytes@.len() == 0 {
            None
        } else {
            Some("data:image/jpeg;base64,"@ + base64_text(bytes@))
        }),
        r is Some <==> bytes@.len() > 0,
{
    if bytes.len() == 0 {
        return None;
    }
    Some(joined("data:image/jpeg;base64,", encode_base64(bytes).as_str()))
}

/// What a marker claims is what was written to it: enough contacts for every target up to its own
/// that is covered by the contacts seen, or for every target up to its own where the dialogs are
/// exhausted.
pub proof fn law_marker_read_back(
    direct_users_seen: usize,
    target: usize,
    dialogs_exhausted: bool,
    now_ms: i64,
    asked: usize,
)
    ensures
        marker_claims(
            marker_view(direct_users_seen, target, dialogs_exhausted, now_ms),
            asked,
        ) <==> (asked <= target && (asked <= direct_users_seen || dialogs_exhausted)),
{
    reveal_strlit("ready");
    reveal_strlit("hydrated_at_ms");
    reveal_strlit("direct_users_seen");
    reveal_strlit("target");
    reveal_strlit("dialogs_exhausted");
    reveal_with_fuel(find_member, 6);
    let marker = marker_view(direct_users_seen, target, dialogs_exhausted, now_ms);
    let members = marker->Object_0;
    let m1 = members.drop_first();
    let m2 = m1.drop_first();
    let m3 = m2.drop_first();
    let m4 = m3.drop_first();
    assert("ready"@.len() == 5);
    assert("target"@.len() == 6);
    assert("hydrated_at_ms"@.len() == 14);
    assert("direct_users_seen"@[1] == 'i');
    assert("dialogs_exhausted"@[2] == 'a');
    assert("direct_users_seen"@[2] == 'r');
    assert("direct_users_seen"@.len() == 17 && "dialogs_exhausted"@.len() == 17);
    assert(members[0].0 == "dialogs_exhausted"@ && m1[0].0 == "direct_users_seen"@ && m2[0].0
        == "hydrated_at_ms"@ && m3[0].0 == "ready"@ && m4[0].0 == "target"@);
    assert(find_member(members, "dialogs_exhausted"@) == Some(members[0].1));
    assert(find_member(members, "direct_users_seen"@) == Some(m1[0].1));
    assert(find_member(members, "ready"@) == Some(m3[0].1));
    assert(find_member(members, "target"@) == Some(m4[0].1));
}

/// A marker that claims enough for a target claims enough for every lower one.
pub proof fn law_lower_target_is_satisfied(marker: JsonView, target: usize, lower: usize)
    requires
        marker_claims(marker, target),
        lower <= target,
    ensures
        marker_claims(marker, lower),
{
}

/// The targets lie within their limits, and grow with what is asked for.
pub proof fn law_targets(limit: usize, more: usize)
    requires
        limit <= more,
    ensures
        5 <= within(limit, RECENT_DIALOG_TARGET_MIN, RECENT_DIALOG_TARGET_MAX) <= 50,
        5 <= within(limit, RECENT_DIALOG_TARGET_MIN, CONTACT_PICKER_DIALOG_TARGET_MAX) <= 120,
        within(limit, RECENT_DIALOG_TARGET_MIN, RECENT_DIALOG_TARGET_MAX) <= within(
            more,
            RECENT_DIALOG_TARGET_MIN,
            RECENT_DIALOG_TARGET_MAX,
        ),
        within(limit, RECENT_DIALOG_TARGET_MIN, CONTACT_PICKER_DIALOG_TARGET_MAX) <= within(
            more,
            RECENT_DIALOG_TARGET_MIN,
            CONTACT_PICKER_DIALOG_TARGET_MAX,
        ),
{
}

proof fn lemma_with_handles_in(list: Seq<Seq<char>>, contact_ids: Seq<Seq<char>>)
    requires
        ascending(list),
    ensures
        ascending(with_handles_in(list, contact_ids)),
    decreases contact_ids.len(),
{
    if contact_ids.len() > 0 {
        lemma_with_handles_in(list, contact_ids.drop_last());
        if let Some(handle) = handle_in_id(contact_ids.last()) {
            law_insert_text(with_handles_in(list, contact_ids.drop_last()), handle);
        }
    }
}

/// The usernames of saved contacts are sorted, and none occurs twice.
pub proof fn law_saved_usernames(contacts: Seq<Seq<Seq<char>>>)
    ensures
        ascending(handles_of_contacts(contacts)),
    decreases contacts.len(),
{
    if contacts.len() > 0 {
        law_saved_usernames(contacts.drop_last());
        lemma_with_handles_in(handles_of_contacts(contacts.drop_last()), contacts.last());
    }
}

/// A list of recent contacts needs as many contacts as are asked for, but at least 5 and at most 50; a
/// contact picker at most 120.
pub proof fn law_what_targets_are(limit: usize)
    ensures
        ({
            let listed = within(limit, RECENT_DIALOG_TARGET_MIN, RECENT_DIALOG_TARGET_MAX);
            let picked = within(limit, RECENT_DIALOG_TARGET_MIN, CONTACT_PICKER_DIALOG_TARGET_MAX);
            &&& limit <= 5 ==> listed == 5 && picked == 5
            &&& 5 <= limit <= 50 ==> listed == limit
            &&& 50 <= limit ==> listed == 50
            &&& 5 <= limit <= 120 ==> picked == limit
            &&& 120 <= limit ==> picked == 120
        }),
        RECENT_DIALOG_MAX_DIALOGS == 500,
{
}

/// What makes a marker claim enough: it says that it is ready, it holds a target and a count of direct
/// contacts, and both reach what is asked for, or the target does and the dialogs are exhausted.
pub proof fn law_what_markers_claim(marker: JsonView, asked: usize)
    ensures
        marker_claims(marker, asked) <==> {
            let target = marker.member("target"@);
            let seen = marker.member("direct_users_seen"@);
            &&& marker.member("ready"@) == Some(JsonView::Bool(true))
            &&& target is Some && target->0.unsigned() is Some
            &&& seen is Some && seen->0.unsigned() is Some
            &&& asked <= target->0.unsigned()->0 as usize
            &&& asked <= seen->0.unsigned()->0 as usize || marker.member("dialogs_exhausted"@)
                == Some(JsonView::Bool(true))
        },
{
}

/// A marker claims nothing where there is none, or where it is no JSON. Otherwise it claims what it
/// holds.
pub proof fn law_marker_files(text: Seq<char>, asked: usize)
    ensures
        !file_claims(None, asked),
        parsed_json(text) is None ==> !file_claims(Some(text), asked),
        parsed_json(text) is Some ==> file_claims(Some(text), asked) == marker_claims(
            parsed_json(text)->0,
            asked,
        ),
{
}

/// A marker holds when it was written, that it is ready, and what was seen.
pub proof fn law_marker_holds(
    direct_users_seen: usize,
    target: usize,
    dialogs_exhausted: bool,
    now_ms: i64,
)
    ensures
        ({
            let marker = marker_view(direct_users_seen, target, dialogs_exhausted, now_ms);
            &&& marker is Object && marker->Object_0.len() == 5
            &&& marker.member("ready"@) == Some(JsonView::Bool(true))
            &&& marker.member("target"@) == Some(number_view(target as int))
            &&& marker.member("direct_users_seen"@) == Some(number_view(direct_users_seen as int))
            &&& marker.member("dialogs_exhausted"@) == Some(JsonView::Bool(dialogs_exhausted))
            &&& marker.member("hydrated_at_ms"@) == Some(number_view(now_ms as int))
        }),
{
    reveal_strlit("ready");
    reveal_strlit("hydrated_at_ms");
    reveal_strlit("direct_users_seen");
    reveal_strlit("target");
    reveal_strlit("dialogs_exhausted");
    reveal_with_fuel(find_member, 6);
    let marker = marker_view(direct_users_seen, target, dialogs_exhausted, now_ms);
    let members = marker->Object_0;
    let m1 = members.drop_first();
    let m2 = m1.drop_first();
    let m3 = m2.drop_first();
    let m4 = m3.drop_first();
    assert("ready"@.len() == 5 && "target"@.len() == 6 && "hydrated_at_ms"@.len() == 14);
    assert("dialogs_exhausted"@[2] == 'a' && "direct_users_seen"@[2] == 'r');
    assert("direct_users_seen"@.len() == 17 && "dialogs_exhausted"@.len() == 17);
    assert(members[0].0 == "dialogs_exhausted"@ && m1[0].0 == "direct_users_seen"@ && m2[0].0
        == "hydrated_at_ms"@ && m3[0].0 == "ready"@ && m4[0].0 == "target"@);
    assert(find_member(members, "hydrated_at_ms"@) == Some(m2[0].1));
    assert(find_member(members, "direct_users_seen"@) == Some(m1[0].1));
    assert(find_member(members, "ready"@) == Some(m3[0].1));
    assert(find_member(members, "target"@) == Some(m4[0].1));
}

/// A cache lacks peers unless it is a JSON object with a list of peers that is not empty.
pub proof fn law_caches_without_peers(text: Seq<char>)
    ensures
        cache_lacks_peers(None),
        !cache_lacks_peers(Some(text)) <==> parsed_json(text) is Some && parsed_json(
            text,
        )->0.member("peers"@) is Some && parsed_json(text)->0.member("peers"@)->0 is Array
            && parsed_json(text)->0.member("peers"@)->0->Array_0.len() > 0,
{
}

/// An account is complete enough for a contact picker where it has no session, or where its marker
/// claims enough.
pub proof fn law_picker_accounts(account: PickerAccount, limit: usize)
    ensures
        !account.has_session ==> picker_account_ready(account, limit),
        account.has_session && account.marker is None ==> !picker_account_ready(account, limit),
        account.has_session && account.marker is Some ==> picker_account_ready(account, limit)
            == file_claims(
            Some(account.marker->0@),
            if limit < 5 {
                5
            } else if limit > 120 {
                120
            } else {
                limit
            },
        ),
{
}

/// A dialog is with a direct contact where it is with a user who is no bot and not the service account,
/// and where it has a message.
pub proof fn law_direct_contacts(chat: ProfileView, time: Option<i64>)
    ensures
        counts_as_direct(chat, time) ==> chat.kind == PeerKind::User && !chat.bot && chat.id
            != 777000 && time is Some,
        !counts_as_direct(chat, time) ==> chat.kind != PeerKind::User || chat.bot || chat.id
            == 777000 || time is None,
{
}

/// Looking at dialogs starts with none, looks for at least one contact, and goes on until as many
/// dialogs were seen as may be, or as many contacts as are looked for. Every dialog counts, and a
/// direct contact counts as such.
pub proof fn law_progress(
    target: usize,
    most: usize,
    progress: RecentDialogPeerCacheHydration,
    direct: bool,
)
    ensures
        ({
            let start = no_dialogs_yet(target, most);
            let next = one_more_dialog(progress, direct);
            &&& start.direct_users_seen == 0 && start.dialogs_seen == 0 && !start.dialogs_exhausted
            &&& start.target_direct_users == vstd::math::max(1, target as int)
            &&& start.max_dialogs == vstd::math::max(
                most as int,
                vstd::math::max(1, target as int),
            )
            &&& !wants_dialog(progress) <==> progress.dialogs_seen >= progress.max_dialogs
                || progress.direct_users_seen >= progress.target_direct_users
            &&& wants_dialog(progress) ==> next.dialogs_seen == progress.dialogs_seen + 1
            &&& wants_dialog(progress) && direct ==> next.direct_users_seen
                == progress.direct_users_seen + 1
            &&& !direct ==> next.direct_users_seen == progress.direct_users_seen
            &&& next.target_direct_users == progress.target_direct_users
            &&& next.max_dialogs == progress.max_dialogs
            &&& next.dialogs_exhausted == progress.dialogs_exhausted
        }),
{
}

/// A dialog is recorded as what Telegram tells of the chat, with the time of its last message, as seen
/// at that time. Dialogs are recorded one after the other.
pub proof fn law_dialogs_are_recorded(
    peers: Seq<RecordView>,
    dialogs: Seq<DialogView>,
    more: DialogView,
)
    ensures
        with_dialogs(peers, Seq::empty()) == peers,
        ({
            let told = chat_record(more.chat, "recent_dialog"@, more.seen_at_ms);
            with_dialogs(peers, dialogs.push(more)) == merged_peers(
                with_dialogs(peers, dialogs),
                RecordView {
                    id: told.id,
                    numeric_id: told.numeric_id,
                    kind: told.kind,
                    title: told.title,
                    username: told.username,
                    usernames: told.usernames,
                    first_name: told.first_name,
                    last_name: told.last_name,
                    phone: told.phone,
                    avatar: None,
                    is_bot: told.is_bot,
                    source: Some("recent_dialog"@),
                    updated_at_ms: more.seen_at_ms,
                    last_message_at_ms: more.last_message_at_ms,
                },
                more.seen_at_ms,
            )
        }),
    decreases dialogs.len(),
{
    let all = dialogs.push(more);
    if dialogs.len() > 0 {
        law_dialogs_are_recorded(with_dialog(peers, dialogs[0]), dialogs.drop_first(), more);
        assert(all.drop_first() =~= dialogs.drop_first().push(more));
        assert(all[0] == dialogs[0]);
    } else {
        assert(all[0] == more);
        assert(all.drop_first() =~= Seq::<DialogView>::empty());
        assert(with_dialogs(with_dialog(peers, more), all.drop_first()) == with_dialog(
            peers,
            more,
        ));
    }
}

/// The direct dialogs are counted one by one.
pub proof fn law_direct_dialogs(dialogs: Seq<DialogView>, more: DialogView)
    ensures
        direct_dialogs(Seq::empty()) == 0,
        counts_as_direct(more.chat, more.last_message_at_ms) ==> direct_dialogs(dialogs.push(more))
            == direct_dialogs(dialogs) + 1,
        !counts_as_direct(more.chat, more.last_message_at_ms) ==> direct_dialogs(dialogs.push(more))
            == direct_dialogs(dialogs),
    decreases dialogs.len(),
{
    let all = dialogs.push(more);
    if dialogs.len() > 0 {
        law_direct_dialogs(dialogs.drop_first(), more);
        assert(all.drop_first() =~= dialogs.drop_first().push(more));
        assert(all[0] == dialogs[0]);
    } else {
        assert(all.drop_first() =~= Seq::<DialogView>::empty());
        assert(direct_dialogs(all.drop_first()) == 0);
    }
}

/// A contact of the phone book is found by the digits of its number, however it is written; a later
/// one takes the place of an earlier one, and one without a name of none.
pub proof fn law_phone_book(contacts: Seq<PhoneView>, more: PhoneView, digits: Seq<char>)
    ensures
        ({
            let name = full_name(more.first_name, Some(more.last_name));
            let before = lookup(phone_names(contacts), digits);
            let now = lookup(phone_names(contacts.push(more)), digits);
            &&& name is Some && digits == digits_only(more.phone) ==> now == name
            &&& name is None || digits != digits_only(more.phone) ==> now == before
        }),
        lookup(phone_names(Seq::empty()), digits) is None,
{
    assert(contacts.push(more).drop_last() =~= contacts);
}

/// The users of a contact book are recorded one after the other, each under the name that the phone
/// book has for its number.
pub proof fn law_contact_book(
    peers: Seq<RecordView>,
    users: Seq<ProfileView>,
    more: ProfileView,
    names: Map<Seq<char>, Seq<char>>,
    now_ms: i64,
)
    ensures
        ({
            let saved = if more.phone is Some && names.contains_key(digits_only(more.phone->0)) {
                Some(names[digits_only(more.phone->0)])
            } else {
                None
            };
            with_contact_book(peers, users.push(more), names, now_ms) == merged_peers(
                with_contact_book(peers, users, names, now_ms),
                user_record(more, saved, "contacts"@, now_ms),
                now_ms,
            )
        }),
        with_contact_book(peers, Seq::empty(), names, now_ms) == peers,
{
    assert(users.push(more).drop_last() =~= users);
}

proof fn lemma_handles_in(list: Seq<Seq<char>>, ids: Seq<Seq<char>>, handle: Seq<char>)
    requires
        ascending(list),
    ensures
        ascending(with_handles_in(list, ids)),
        with_handles_in(list, ids).contains(handle) <==> list.contains(handle) || exists|k: int|
            0 <= k < ids.len() && handle_in_id(#[trigger] ids[k]) == Some(handle),
    decreases ids.len(),
{
    if ids.len() > 0 {
        let rest = ids.drop_last();
        lemma_handles_in(list, rest, handle);
        if let Some(value) = handle_in_id(ids.last()) {
            law_insert_text(with_handles_in(list, rest), value);
        }
        assert(forall|k: int| 0 <= k < rest.len() ==> #[trigger] ids[k] == rest[k]);
        assert(ids[ids.len() - 1] == ids.last());
    }
}

/// One of the ids of a saved contact holds this handle.
pub open spec fn holds_handle(ids: Seq<Seq<char>>, handle: Seq<char>) -> bool {
    exists|k: int| 0 <= k < ids.len() && handle_in_id(#[trigger] ids[k]) == Some(handle)
}

/// The usernames of saved contacts are exactly the public handles in their ids.
pub proof fn law_handles_of_contacts(contacts: Seq<Seq<Seq<char>>>, handle: Seq<char>)
    ensures
        handles_of_contacts(contacts).contains(handle) <==> exists|i: int|
            0 <= i < contacts.len() && holds_handle(#[trigger] contacts[i], handle),
    decreases contacts.len(),
{
    if contacts.len() > 0 {
        let rest = contacts.drop_last();
        law_handles_of_contacts(rest, handle);
        law_saved_usernames(rest);
        lemma_handles_in(handles_of_contacts(rest), contacts.last(), handle);
        assert(forall|k: int| 0 <= k < rest.len() ==> #[trigger] contacts[k] == rest[k]);
        assert(contacts[contacts.len() - 1] == contacts.last());
    }
}

/// Avatars are recorded one after the other, each with what Telegram tells of its chat.
pub proof fn law_fetched_avatars(
    peers: Seq<RecordView>,
    fetched: Seq<FetchedAvatar>,
    more: FetchedAvatar,
    now_ms: i64,
)
    ensures
        ({
            let told = chat_record(more.chat@, "dialog"@, now_ms);
            with_avatars(peers, fetched.push(more), now_ms) == merged_peers(
                with_avatars(peers, fetched, now_ms),
                RecordView {
                    id: told.id,
                    numeric_id: told.numeric_id,
                    kind: told.kind,
                    title: told.title,
                    username: told.username,
                    usernames: told.usernames,
                    first_name: told.first_name,
                    last_name: told.last_name,
                    phone: told.phone,
                    avatar: Some(more.avatar@),
                    is_bot: told.is_bot,
                    source: Some("dialog"@),
                    updated_at_ms: now_ms,
                    last_message_at_ms: None,
                },
                now_ms,
            )
        }),
        with_avatars(peers, Seq::empty(), now_ms) == peers,
{
    assert(fetched.push(more).drop_last() =~= fetched);
}

proof fn lemma_four_numbers(n: int, w: int, x: int, y: int, z: int)
    requires
        0 <= w < 64 && 0 <= x < 64 && 0 <= y < 64 && 0 <= z < 64,
        n == w * 262144 + x * 4096 + y * 64 + z,
    ensures
        n / 262144 == w,
        (n / 4096) % 64 == x,
        (n / 64) % 64 == y,
        n % 64 == z,
{
    assert(n / 4096 == w * 64 + x);
    assert(n / 64 == w * 4096 + x * 64 + y);
}

proof fn lemma_three_numbers(n: int, w: int, x: int, y: int)
    requires
        0 <= w < 64 && 0 <= x < 64 && 0 <= y < 64,
        n == w * 4096 + x * 64 + y,
    ensures
        n / 4096 == w,
        (n / 64) % 64 == x,
        n % 64 == y,
{
    assert(n / 64 == w * 64 + x);
}

/// Three bytes are written as the four numbers of six bits that make up the same number, and one or
/// two bytes at the end are followed by padding.
pub proof fn law_base64(a: u8, b: u8, c: u8, rest: Seq<u8>, w: int, x: int, y: int, z: int)
    requires
        0 <= w < 64 && 0 <= x < 64 && 0 <= y < 64 && 0 <= z < 64,
    ensures
        base64_text(Seq::empty()).len() == 0,
        w * 262144 + x * 4096 + y * 64 + z == a * 65536 + b * 256 + c ==> base64_text(
            seq![a, b, c] + rest,
        ) == seq![base64_char(w), base64_char(x), base64_char(y), base64_char(z)] + base64_text(
            rest,
        ),
        w * 4096 + x * 64 + y == (a * 256 + b) * 4 ==> base64_text(seq![a, b]) == seq![
            base64_char(w),
            base64_char(x),
            base64_char(y),
            '=',
        ],
        w * 64 + x == a * 16 ==> base64_text(seq![a]) == seq![
            base64_char(w),
            base64_char(x),
            '=',
            '=',
        ],
{
    let all = seq![a, b, c] + rest;
    assert(all.skip(3) =~= rest);
    assert(all[0] == a && all[1] == b && all[2] == c);
    let three = (a as int * 256 + b as int) * 256 + c as int;
    if w * 262144 + x * 4096 + y * 64 + z == three {
        lemma_four_numbers(three, w, x, y, z);
    }
    let two = (a as int * 256 + b as int) * 4;
    if w * 4096 + x * 64 + y == two {
        lemma_three_numbers(two, w, x, y);
        assert(seq![a, b][0] == a && seq![a, b][1] == b);
        assert(base64_text(seq![a, b]) == seq![
            base64_char(two / 4096),
            base64_char((two / 64) % 64),
            base64_char(two % 64),
            '=',
        ]);
    }
    let one = a as int * 16;
    if w * 64 + x == one {
        assert(one / 64 == w && one % 64 == x);
        assert(seq![a][0] == a);
        assert(base64_text(seq![a]) == seq![
            base64_char(one / 64),
            base64_char(one % 64),
            '=',
            '=',
        ]);
    }
}

/// The characters of Base64 are the capital letters, the small letters and the digits, each in their
/// order, and then `+` and `/`.
pub proof fn law_base64_characters(n: int)
    ensures
        0 <= n < 26 ==> base64_char(n) as int == 'A' as int + n,
        26 <= n < 52 ==> base64_char(n) as int == 'a' as int + (n - 26),
        52 <= n < 62 ==> base64_char(n) as int == '0' as int + (n - 52),
        n == 62 ==> base64_char(n) == '+',
        n == 63 ==> base64_char(n) == '/',
{
}

} // verus!
