//! Rules on the names, usernames and ids of contacts.

use crate::text::{
    as_text, ascending, byte_len, bytes_in, char_to_lower, chars_of, clean, clean_opt, cleaned,
    contains, ends, ends_with, holds_text, insert_text, is_digit, is_lower, is_upper, joined,
    law_ascending_unique, law_insert_text, law_trimmed_again, law_without_leading, lower_char,
    lowered, nonblank, opt_str, opt_text, own, put_text, same_text, starts, starts_with,
    strip_leading, texts, to_lower, trim, trimmed, without_leading, word_count, words,
};
use vstd::prelude::*;
use vstd::string::*;

verus! {

/// The index of the first `mark`, or the length where there is none.
pub open spec fn first_mark(s: Seq<char>, mark: char) -> nat
    decreases s.len(),
{
    if s.len() == 0 || s[0] == mark {
        0
    } else {
        1 + first_mark(s.drop_first(), mark)
    }
}

/// What stands before the first `mark`, or the whole text where there is none.
pub open spec fn before_mark(s: Seq<char>, mark: char) -> Seq<char> {
    s.take(first_mark(s, mark) as int)
}

/// What stands behind the first `mark`.
pub open spec fn after_mark(s: Seq<char>, mark: char) -> Seq<char> {
    s.skip(first_mark(s, mark) as int + 1)
}

pub open spec fn is_alnum(c: char) -> bool {
    is_digit(c) || is_lower(c) || is_upper(c)
}

/// The ASCII letters and digits of a text, in lower case.
pub open spec fn name_token(s: Seq<char>) -> Seq<char>
    decreases s.len(),
{
    if s.len() == 0 {
        Seq::empty()
    } else if is_alnum(s.last()) {
        name_token(s.drop_last()).push(lower_char(s.last()))
    } else {
        name_token(s.drop_last())
    }
}

/// The digits of a text.
pub open spec fn digits_only(s: Seq<char>) -> Seq<char>
    decreases s.len(),
{
    if s.len() == 0 {
        Seq::empty()
    } else if is_digit(s.last()) {
        digits_only(s.drop_last()).push(s.last())
    } else {
        digits_only(s.drop_last())
    }
}

/// The id names a Telegram user, by name or by number.
pub open spec fn telegram_id(id: Seq<char>) -> bool {
    starts(id, "telegram@"@) || starts(id, "telegram-user-id@"@)
}

/// The name is a Telegram id and no name at all.
pub open spec fn telegram_id_like(name: Seq<char>) -> bool {
    telegram_id(lowered(trimmed(name)))
}

/// The name is a contact id and no name at all.
pub open spec fn contact_id_like(name: Seq<char>) -> bool {
    let value = lowered(trimmed(name));
    ||| telegram_id(value)
    ||| starts(value, "google@"@)
    ||| starts(value, "gmail@"@)
    ||| starts(value, "lark@"@)
    ||| starts(value, "slack@"@)
}

/// Of two names, `candidate` has more words, or as many words and more bytes.
pub open spec fn longer_name(existing: Seq<char>, candidate: Seq<char>) -> bool {
    ||| words(candidate).len() > words(existing).len()
    ||| words(candidate).len() == words(existing).len() && byte_len(candidate) > byte_len(existing)
}

/// `candidate` says more than the name that is there. A blank name says nothing.
pub open spec fn fuller_name(existing: Option<Seq<char>>, candidate: Seq<char>) -> bool {
    match cleaned(existing) {
        None => true,
        Some(present) => longer_name(present, trimmed(candidate)),
    }
}

/// The same for contacts of any connector, where a name that is an id says less than any other.
pub open spec fn fuller_contact_name(existing: Option<Seq<char>>, candidate: Seq<char>) -> bool {
    match cleaned(existing) {
        None => true,
        Some(present) => if contact_id_like(present) != contact_id_like(candidate) {
            contact_id_like(present)
        } else {
            longer_name(present, candidate)
        },
    }
}

/// The same for Telegram contacts, where only Telegram ids are told from names.
pub open spec fn fuller_telegram_name(existing: Option<Seq<char>>, candidate: Seq<char>) -> bool {
    match cleaned(existing) {
        None => true,
        Some(present) => if telegram_id_like(present) != telegram_id_like(candidate) {
            telegram_id_like(present)
        } else {
            longer_name(present, candidate)
        },
    }
}

/// The name after a candidate for it was seen.
pub open spec fn merged_contact_name(
    existing: Option<Seq<char>>,
    candidate: Option<Seq<char>>,
) -> Option<Seq<char>> {
    match cleaned(candidate) {
        Some(name) if fuller_contact_name(existing, name) => Some(name),
        _ => existing,
    }
}

/// The name of a Telegram contact after a candidate for it was seen.
pub open spec fn merged_telegram_name(
    existing: Option<Seq<char>>,
    candidate: Option<Seq<char>>,
) -> Option<Seq<char>> {
    match cleaned(candidate) {
        Some(name) if fuller_telegram_name(existing, name) => Some(name),
        _ => existing,
    }
}

/// The name of a cached peer after a candidate for it was seen.
pub open spec fn merged_peer_name(
    existing: Option<Seq<char>>,
    candidate: Option<Seq<char>>,
) -> Option<Seq<char>> {
    match candidate {
        Some(name) if fuller_name(existing, name) => candidate,
        _ => existing,
    }
}

/// A value that is filled in where there was a blank.
pub open spec fn filled(
    existing: Option<Seq<char>>,
    candidate: Option<Seq<char>>,
) -> Option<Seq<char>> {
    if cleaned(existing) is None {
        candidate
    } else {
        existing
    }
}

/// A username without white space around it and without leading `@`.
pub open spec fn public_username(value: Seq<char>) -> Option<Seq<char>> {
    let username = without_leading(trimmed(value), '@');
    if username.len() == 0 {
        None
    } else {
        Some(username)
    }
}

/// The username, where there is one, is not empty and has no leading `@`.
pub open spec fn is_bare(username: Option<Seq<char>>) -> bool {
    match username {
        Some(username) => username.len() > 0 && username[0] != '@',
        None => true,
    }
}

/// The username in an id of the form `telegram@username`.
pub open spec fn username_in_id(id: Seq<char>) -> Option<Seq<char>> {
    if starts(id, "telegram@"@) {
        public_username(id.skip("telegram@"@.len() as int))
    } else {
        None
    }
}

pub open spec fn merged_username(
    existing: Option<Seq<char>>,
    candidate: Option<Seq<char>>,
) -> Option<Seq<char>> {
    match existing {
        Some(_) => existing,
        None => match candidate {
            Some(value) => public_username(value),
            None => None,
        },
    }
}

/// The later of two optional times.
pub open spec fn later_time(existing: Option<i128>, candidate: Option<i128>) -> Option<i128> {
    match (existing, candidate) {
        (Some(a), Some(b)) => if a < b {
            candidate
        } else {
            existing
        },
        (Some(_), None) => existing,
        (None, _) => candidate,
    }
}

pub open spec fn bot_suffix(value: Seq<char>) -> bool {
    value == "bot"@ || ends(value, "-bot"@) || ends(value, "_bot"@) || ends(value, ".bot"@)
}

/// The id is that of an automated account.
pub open spec fn bot_id(id: Seq<char>) -> bool {
    let prefix = lowered(before_mark(id, '@'));
    let suffix = lowered(after_mark(id, '@'));
    &&& first_mark(id, '@') < id.len()
    &&& if prefix == "telegram"@ {
        ends(suffix, "bot"@)
    } else {
        bot_suffix(before_mark(suffix, '@')) || bot_suffix(suffix)
    }
}

/// The name is that of an automated account.
pub open spec fn bot_name(name: Seq<char>) -> bool {
    let lower = lowered(trimmed(name));
    ||| lower == "bot"@
    ||| ends(lower, " bot"@)
    ||| holds_text(lower, " support bot"@)
    ||| holds_text(lower, " sales bot"@)
    ||| holds_text(lower, " assistant bot"@)
}

/// The Telegram username is that of a bot.
pub open spec fn bot_username(username: Seq<char>) -> bool {
    ends(lowered(username), "bot"@)
}

/// A one-word name that differs from the username is shown with the username.
pub open spec fn shows_handle(name: Seq<char>, username: Seq<char>) -> bool {
    &&& words(trimmed(name)).len() <= 1
    &&& name_token(trimmed(name)).len() > 0
    &&& name_token(trimmed(name)) != name_token(without_leading(username, '@'))
}

/// A public Telegram handle: five to thirty-two lower-case letters, digits and underscores, not
/// digits alone.
pub open spec fn public_handle(username: Seq<char>) -> bool {
    &&& 5 <= byte_len(username) <= 32
    &&& exists|i: int| 0 <= i < username.len() && !is_digit(#[trigger] username[i])
    &&& forall|i: int|
        0 <= i < username.len() ==> is_lower(#[trigger] username[i]) || is_digit(username[i])
            || username[i] == '_'
}

/// The public handle in a contact id of the form `telegram@username`.
pub open spec fn handle_in_id(contact_id: Seq<char>) -> Option<Seq<char>> {
    let id = trimmed(contact_id);
    let username = lowered(
        without_leading(trimmed(id.skip("telegram@"@.len() as int)), '@'),
    );
    if starts(id, "telegram@"@) && public_handle(username) {
        Some(username)
    } else {
        None
    }
}

/// First and last name with a space between them; a blank part is left out.
pub open spec fn full_name(first: Seq<char>, last: Option<Seq<char>>) -> Option<Seq<char>> {
    match (nonblank(first), cleaned(last)) {
        (Some(a), Some(b)) => Some(a + " "@ + b),
        (Some(a), None) => Some(a),
        (None, b) => b,
    }
}

/// The texts that are not blank, each trimmed, sorted and without repetition, added to a list.
pub open spec fn with_nonblank(list: Seq<Seq<char>>, values: Seq<Seq<char>>) -> Seq<Seq<char>>
    decreases values.len(),
{
    if values.len() == 0 {
        list
    } else {
        let before = with_nonblank(list, values.drop_last());
        match nonblank(values.last()) {
            Some(value) => insert_text(before, value),
            None => before,
        }
    }
}

pub open spec fn united_usernames(left: Seq<Seq<char>>, right: Seq<Seq<char>>) -> Seq<Seq<char>> {
    with_nonblank(with_nonblank(Seq::empty(), left), right)
}

proof fn lemma_first_mark(s: Seq<char>, mark: char, k: int)
    requires
        0 <= k <= s.len(),
        forall|i: int| 0 <= i < k ==> s[i] != mark,
        k < s.len() ==> s[k] == mark,
    ensures
        first_mark(s, mark) == k,
    decreases k,
{
    if k > 0 {
        lemma_first_mark(s.drop_first(), mark, k - 1);
    }
}

/// Finds the first `mark`, or the end.
fn find_mark(s: &str, mark: char) -> (r: usize)
    ensures
        r == first_mark(s@, mark),
        r <= s@.len(),
{
    let chars = chars_of(s);
    let mut at: usize = 0;
    while at < chars.len() && chars[at] != mark
        invariant
            at <= chars@.len(),
            forall|i: int| 0 <= i < at ==> chars@[i] != mark,
        decreases chars@.len() - at,
    {
        at = at + 1;
    }
    proof {
        lemma_first_mark(s@, mark, at as int);
    }
    at
}

/// What stands behind a prefix.
pub fn behind_prefix<'a>(s: &'a str, prefix: &str) -> (r: Option<&'a str>)
    ensures
        match r {
            Some(rest) => starts(s@, prefix@) && rest@ == s@.skip(prefix@.len() as int),
            None => !starts(s@, prefix@),
        },
{
    if starts_with(s, prefix) {
        let n = s.unicode_len();
        let k = prefix.unicode_len();
        assert(s@.subrange(k as int, n as int) =~= s@.skip(k as int));
        Some(s.substring_char(k, n))
    } else {
        None
    }
}

pub fn is_telegram_contact_id(id: &str) -> (r: bool)
    ensures
        r == telegram_id(id@),
{
    starts_with(id, "telegram@") || starts_with(id, "telegram-user-id@")
}

pub fn telegram_name_looks_like_contact_id(name: &str) -> (r: bool)
    ensures
        r == telegram_id_like(name@),
{
    let value = to_lower(trim(name));
    is_telegram_contact_id(value.as_str())
}

pub fn name_looks_like_contact_id(name: &str) -> (r: bool)
    ensures
        r == contact_id_like(name@),
{
    let value = to_lower(trim(name));
    let value = value.as_str();
    starts_with(value, "telegram@") || starts_with(value, "telegram-user-id@") || starts_with(
        value,
        "google@",
    ) || starts_with(value, "gmail@") || starts_with(value, "lark@") || starts_with(value, "slack@")
}

fn is_longer_name(existing: &str, candidate: &str) -> (r: bool)
    ensures
        r == longer_name(existing@, candidate@),
{
    let existing_parts = word_count(existing);
    let candidate_parts = word_count(candidate);
    candidate_parts > existing_parts || (candidate_parts == existing_parts && bytes_in(candidate)
        > bytes_in(existing))
}

/// Whether a candidate name of a cached peer says more than the present one.
pub fn name_is_more_complete(existing: Option<&str>, candidate: &str) -> (r: bool)
    ensures
        r == fuller_name(opt_str(existing), candidate@),
{
    match clean_opt(existing) {
        None => true,
        Some(present) => is_longer_name(present, trim(candidate)),
    }
}

/// Whether a candidate name of a contact says more than the present one.
pub fn candidate_name_is_more_complete(existing: Option<&str>, candidate: &str) -> (r: bool)
    ensures
        r == fuller_contact_name(opt_str(existing), candidate@),
{
    match clean_opt(existing) {
        None => true,
        Some(present) => {
            let existing_is_contact_id = name_looks_like_contact_id(present);
            let candidate_is_contact_id = name_looks_like_contact_id(candidate);
            if existing_is_contact_id != candidate_is_contact_id {
                return existing_is_contact_id;
            }
            is_longer_name(present, candidate)
        },
    }
}

/// Whether a candidate name of a Telegram contact says more than the present one.
pub fn telegram_name_is_more_complete(existing: Option<&str>, candidate: &str) -> (r: bool)
    ensures
        r == fuller_telegram_name(opt_str(existing), candidate@),
{
    match clean_opt(existing) {
        None => true,
        Some(present) => {
            let existing_is_contact_id = telegram_name_looks_like_contact_id(present);
            let candidate_is_contact_id = telegram_name_looks_like_contact_id(candidate);
            if existing_is_contact_id != candidate_is_contact_id {
                return existing_is_contact_id;
            }
            is_longer_name(present, candidate)
        },
    }
}

pub fn merge_candidate_name(existing: &mut Option<String>, candidate: Option<&str>)
    ensures
        opt_text(*final(existing)) == merged_contact_name(
            opt_text(*old(existing)),
            opt_str(candidate),
        ),
{
    if let Some(name) = clean_opt(candidate) {
        if candidate_name_is_more_complete(as_text(existing), name) {
            *existing = Some(name.to_owned());
        }
    }
}

pub fn merge_telegram_name(existing: &mut Option<String>, candidate: &Option<String>)
    ensures
        opt_text(*final(existing)) == merged_telegram_name(
            opt_text(*old(existing)),
            opt_text(*candidate),
        ),
{
    if let Some(name) = clean_opt(as_text(candidate)) {
        if telegram_name_is_more_complete(as_text(existing), name) {
            *existing = Some(name.to_owned());
        }
    }
}

pub fn merge_optional_name(existing: &mut Option<String>, candidate: Option<String>)
    ensures
        opt_text(*final(existing)) == merged_peer_name(
            opt_text(*old(existing)),
            opt_text(candidate),
        ),
{
    if let Some(name) = candidate {
        if name_is_more_complete(as_text(existing), name.as_str()) {
            *existing = Some(name);
        }
    }
}

pub fn merge_optional_fill(existing: &mut Option<String>, candidate: Option<String>)
    ensures
        opt_text(*final(existing)) == filled(opt_text(*old(existing)), opt_text(candidate)),
{
    if clean_opt(as_text(existing)).is_none() {
        *existing = candidate;
    }
}

pub fn sanitize_public_username(value: &str) -> (r: Option<String>)
    ensures
        opt_text(r) == public_username(value@),
{
    let username = strip_leading(trim(value), '@');
    if username.is_empty() {
        None
    } else {
        Some(username.to_owned())
    }
}

pub fn public_username_from_contact_id(id: &str) -> (r: Option<String>)
    ensures
        opt_text(r) == username_in_id(id@),
{
    match behind_prefix(id, "telegram@") {
        Some(rest) => sanitize_public_username(rest),
        None => None,
    }
}

pub fn merge_candidate_public_username(existing: &mut Option<String>, candidate: Option<&str>)
    ensures
        opt_text(*final(existing)) == merged_username(
            opt_text(*old(existing)),
            opt_str(candidate),
        ),
{
    if existing.is_some() {
        return ;
    }
    *existing = match candidate {
        Some(value) => sanitize_public_username(value),
        None => None,
    };
}

pub fn merge_candidate_last_message_at_ms(existing: &mut Option<i128>, candidate: Option<i128>)
    ensures
        *final(existing) == later_time(*old(existing), candidate),
{
    if let Some(time) = candidate {
        match *existing {
            Some(current) => {
                if current < time {
                    *existing = Some(time);
                }
            },
            None => {
                *existing = Some(time);
            },
        }
    }
}

pub fn has_bot_suffix(value: &str) -> (r: bool)
    ensures
        r == bot_suffix(value@),
{
    same_text(value, "bot") || ends_with(value, "-bot") || ends_with(value, "_bot") || ends_with(
        value,
        ".bot",
    )
}

pub fn contact_id_is_bot_like(id: &str) -> (r: bool)
    ensures
        r == bot_id(id@),
{
    let at = find_mark(id, '@');
    let n = id.unicode_len();
    if at >= n {
        return false;
    }
    proof {
        assert(id@.subrange(0, at as int) =~= before_mark(id@, '@'));
        assert(id@.subrange(at + 1, n as int) =~= after_mark(id@, '@'));
    }
    let prefix = to_lower(id.substring_char(0, at));
    let suffix = to_lower(id.substring_char(at + 1, n));
    if same_text(prefix.as_str(), "telegram") {
        return ends_with(suffix.as_str(), "bot");
    }
    let end = find_mark(suffix.as_str(), '@');
    let local = suffix.as_str().substring_char(0, end);
    assert(local@ =~= before_mark(suffix@, '@'));
    has_bot_suffix(local) || has_bot_suffix(suffix.as_str())
}

pub fn name_is_bot_like(name: &str) -> (r: bool)
    ensures
        r == bot_name(name@),
{
    let lower = to_lower(trim(name));
    let lower = lower.as_str();
    same_text(lower, "bot") || ends_with(lower, " bot") || contains(lower, " support bot")
        || contains(lower, " sales bot") || contains(lower, " assistant bot")
}

pub fn telegram_username_looks_like_bot(username: &str) -> (r: bool)
    ensures
        r == bot_username(username@),
{
    let lower = to_lower(username);
    ends_with(lower.as_str(), "bot")
}

pub fn username_looks_like_bot(username: Option<&str>) -> (r: bool)
    ensures
        r == (match opt_str(username) {
            Some(value) => bot_username(value),
            None => false,
        }),
{
    match username {
        Some(value) => telegram_username_looks_like_bot(value),
        None => false,
    }
}

pub fn normalize_name_token(value: &str) -> (r: String)
    ensures
        r@ == name_token(value@),
{
    let chars = chars_of(value);
    let mut out = String::new();
    for i in 0..chars.len()
        invariant
            chars@ == value@,
            out@ == name_token(value@.take(i as int)),
    {
        let c = chars[i];
        assert(value@.take(i + 1).drop_last() =~= value@.take(i as int));
        if ('0' <= c && c <= '9') || ('a' <= c && c <= 'z') || ('A' <= c && c <= 'Z') {
            out.push(char_to_lower(c));
        }
    }
    assert(value@.take(value@.len() as int) =~= value@);
    out
}

pub fn name_should_include_handle(name: &str, username: &str) -> (r: bool)
    ensures
        r == shows_handle(name@, username@),
{
    let name = trim(name);
    if word_count(name) > 1 {
        return false;
    }
    let normalized_name = normalize_name_token(name);
    let normalized_username = normalize_name_token(strip_leading(username, '@'));
    !normalized_name.as_str().is_empty() && !same_text(
        normalized_name.as_str(),
        normalized_username.as_str(),
    )
}

pub fn nonempty(value: &str) -> (r: Option<String>)
    ensures
        opt_text(r) == nonblank(value@),
{
    own(clean(value))
}

pub fn joined_name(first_name: &str, last_name: Option<&str>) -> (r: Option<String>)
    ensures
        opt_text(r) == full_name(first_name@, opt_str(last_name)),
{
    match (clean(first_name), clean_opt(last_name)) {
        (Some(first), Some(last)) => {
            let name = joined(first, " ");
            Some(joined(name.as_str(), last))
        },
        (Some(first), None) => Some(first.to_owned()),
        (None, last) => own(last),
    }
}

pub fn phone_key(value: &str) -> (r: String)
    ensures
        r@ == digits_only(value@),
{
    let chars = chars_of(value);
    let mut out = String::new();
    for i in 0..chars.len()
        invariant
            chars@ == value@,
            out@ == digits_only(value@.take(i as int)),
    {
        let c = chars[i];
        assert(value@.take(i + 1).drop_last() =~= value@.take(i as int));
        if '0' <= c && c <= '9' {
            out.push(c);
        }
    }
    assert(value@.take(value@.len() as int) =~= value@);
    out
}

pub fn telegram_username_is_public_handle(username: &str) -> (r: bool)
    ensures
        r == public_handle(username@),
{
    let len = bytes_in(username);
    let chars = chars_of(username);
    let mut all_digits = true;
    let mut all_allowed = true;
    for i in 0..chars.len()
        invariant
            chars@ == username@,
            all_digits == (forall|j: int| 0 <= j < i ==> is_digit(#[trigger] chars@[j])),
            all_allowed == (forall|j: int|
                0 <= j < i ==> is_lower(#[trigger] chars@[j]) || is_digit(chars@[j]) || chars@[j]
                    == '_'),
    {
        let c = chars[i];
        let digit = '0' <= c && c <= '9';
        if !digit {
            all_digits = false;
            if !('a' <= c && c <= 'z') && c != '_' {
                all_allowed = false;
            }
        }
    }
    5 <= len && len <= 32 && !all_digits && all_allowed
}

pub fn telegram_username_from_contact_id(contact_id: &str) -> (r: Option<String>)
    ensures
        opt_text(r) == handle_in_id(contact_id@),
{
    let id = trim(contact_id);
    match behind_prefix(id, "telegram@") {
        Some(rest) => {
            let username = to_lower(strip_leading(trim(rest), '@'));
            if telegram_username_is_public_handle(username.as_str()) {
                Some(username)
            } else {
                None
            }
        },
        None => None,
    }
}

/// Adds the texts that are not blank to a sorted list.
fn put_nonblank(list: &mut Vec<String>, values: &Vec<String>)
    ensures
        texts(final(list)@) == with_nonblank(texts(old(list)@), texts(values@)),
{
    let ghost all = texts(values@);
    for i in 0..values.len()
        invariant
            all == texts(values@),
            texts(list@) == with_nonblank(texts(old(list)@), all.take(i as int)),
    {
        assert(all.take(i + 1).drop_last() =~= all.take(i as int));
        assert(all.take(i + 1).last() == values@[i as int]@);
        if let Some(value) = nonempty(values[i].as_str()) {
            put_text(list, value);
        }
    }
    assert(all.take(all.len() as int) =~= all);
}

/// The usernames of two lists, trimmed, sorted and without repetition.
pub fn merged_usernames(left: &Vec<String>, right: &Vec<String>) -> (r: Vec<String>)
    ensures
        texts(r@) == united_usernames(texts(left@), texts(right@)),
{
    let mut values: Vec<String> = Vec::new();
    assert(texts(values@) =~= Seq::<Seq<char>>::empty());
    put_nonblank(&mut values, left);
    put_nonblank(&mut values, right);
    values
}

proof fn lemma_with_nonblank(list: Seq<Seq<char>>, values: Seq<Seq<char>>)
    requires
        ascending(list),
    ensures
        ascending(with_nonblank(list, values)),
        forall|x: Seq<char>| #[trigger]
            with_nonblank(list, values).contains(x) <==> (list.contains(x) || exists|i: int|
                0 <= i < values.len() && nonblank(#[trigger] values[i]) == Some(x)),
    decreases values.len(),
{
    if values.len() > 0 {
        let before = values.drop_last();
        lemma_with_nonblank(list, before);
        if let Some(value) = nonblank(values.last()) {
            law_insert_text(with_nonblank(list, before), value);
        }
        assert forall|x: Seq<char>| #[trigger]
            with_nonblank(list, values).contains(x) <==> (list.contains(x) || exists|i: int|
                0 <= i < values.len() && nonblank(#[trigger] values[i]) == Some(x)) by {
            if with_nonblank(list, before).contains(x) && !list.contains(x) {
                let i = choose|i: int|
                    0 <= i < before.len() && nonblank(#[trigger] before[i]) == Some(x);
                assert(values[i] == before[i]);
            }
            if nonblank(values.last()) == Some(x) {
                assert(nonblank(values[values.len() - 1]) == Some(x));
            }
            if !list.contains(x) && (exists|i: int|
                0 <= i < values.len() && nonblank(#[trigger] values[i]) == Some(x)) {
                let i = choose|i: int|
                    0 <= i < values.len() && nonblank(#[trigger] values[i]) == Some(x);
                if i < values.len() - 1 {
                    assert(before[i] == values[i]);
                    assert(with_nonblank(list, before).contains(x));
                } else {
                    assert(nonblank(values.last()) == Some(x));
                }
            }
        }
    }
}

/// The united usernames are sorted, none occurs twice, and they are the trimmed usernames of the
/// two lists without the blank ones.
pub proof fn law_united_usernames(left: Seq<Seq<char>>, right: Seq<Seq<char>>)
    ensures
        ascending(united_usernames(left, right)),
        forall|x: Seq<char>| #[trigger]
            united_usernames(left, right).contains(x) <==> ((exists|i: int|
                0 <= i < left.len() && nonblank(#[trigger] left[i]) == Some(x)) || (exists|i: int|
                0 <= i < right.len() && nonblank(#[trigger] right[i]) == Some(x))),
{
    let none = Seq::<Seq<char>>::empty();
    lemma_with_nonblank(none, left);
    lemma_with_nonblank(with_nonblank(none, left), right);
    assert forall|x: Seq<char>| #[trigger]
        united_usernames(left, right).contains(x) <==> ((exists|i: int|
            0 <= i < left.len() && nonblank(#[trigger] left[i]) == Some(x)) || (exists|i: int|
            0 <= i < right.len() && nonblank(#[trigger] right[i]) == Some(x))) by {
        assert(with_nonblank(none, left).contains(x) <==> (none.contains(x) || exists|i: int|
            0 <= i < left.len() && nonblank(#[trigger] left[i]) == Some(x)));
    }
}

/// Uniting usernames with a list that they were united with before changes nothing.
pub proof fn law_united_again(left: Seq<Seq<char>>, right: Seq<Seq<char>>)
    ensures
        united_usernames(united_usernames(left, right), right) == united_usernames(left, right),
{
    let once = united_usernames(left, right);
    law_united_usernames(left, right);
    law_united_usernames(once, right);
    assert forall|x: Seq<char>| #[trigger]
        united_usernames(once, right).contains(x) <==> once.contains(x) by {
        assert forall|i: int| 0 <= i < once.len() implies nonblank(#[trigger] once[i]) == Some(
            once[i],
        ) by {
            assert(once.contains(once[i]));
            if exists|j: int| 0 <= j < left.len() && nonblank(#[trigger] left[j]) == Some(once[i]) {
                let j = choose|j: int|
                    0 <= j < left.len() && nonblank(#[trigger] left[j]) == Some(once[i]);
                law_trimmed_again(left[j]);
            } else {
                let j = choose|j: int|
                    0 <= j < right.len() && nonblank(#[trigger] right[j]) == Some(once[i]);
                law_trimmed_again(right[j]);
            }
        }
        if once.contains(x) {
            let k = once.index_of(x);
            assert(nonblank(once[k]) == Some(x));
        }
    }
    law_ascending_unique(united_usernames(once, right), once);
}

/// Seeing the same candidate for a name again changes nothing, whichever rule names are merged by.
pub proof fn law_name_merged_again(existing: Option<Seq<char>>, candidate: Option<Seq<char>>)
    ensures
        merged_contact_name(merged_contact_name(existing, candidate), candidate)
            == merged_contact_name(existing, candidate),
        merged_telegram_name(merged_telegram_name(existing, candidate), candidate)
            == merged_telegram_name(existing, candidate),
        merged_peer_name(merged_peer_name(existing, candidate), candidate) == merged_peer_name(
            existing,
            candidate,
        ),
{
    if let Some(name) = candidate {
        law_trimmed_again(name);
    }
}

/// A name that is one is never replaced by an id, and a name that is there never goes away.
pub proof fn law_names_are_kept(existing: Seq<char>, candidate: Option<Seq<char>>)
    requires
        nonblank(existing) is Some,
    ensures
        merged_contact_name(Some(existing), candidate) is Some,
        merged_telegram_name(Some(existing), candidate) is Some,
        !contact_id_like(trimmed(existing)) && (match cleaned(candidate) {
            Some(name) => contact_id_like(name),
            None => true,
        }) ==> merged_contact_name(Some(existing), candidate) == Some(existing),
        !telegram_id_like(trimmed(existing)) && (match cleaned(candidate) {
            Some(name) => telegram_id_like(name),
            None => true,
        }) ==> merged_telegram_name(Some(existing), candidate) == Some(existing),
{
}

/// The key of a phone number holds digits alone, and is its own key.
pub proof fn law_phone_key(value: Seq<char>)
    ensures
        forall|i: int|
            0 <= i < digits_only(value).len() ==> is_digit(#[trigger] digits_only(value)[i]),
        digits_only(digits_only(value)) == digits_only(value),
    decreases value.len(),
{
    if value.len() > 0 {
        let rest = value.drop_last();
        law_phone_key(rest);
        if is_digit(value.last()) {
            assert(digits_only(value).drop_last() =~= digits_only(rest));
            assert forall|i: int| 0 <= i < digits_only(value).len() implies is_digit(
                #[trigger] digits_only(value)[i],
            ) by {
                if i < digits_only(rest).len() {
                    assert(digits_only(value)[i] == digits_only(rest)[i]);
                }
            }
        }
    }
}

/// The later of two times is not before either of them, and is one of them.
pub proof fn law_later_time(a: Option<i128>, b: Option<i128>)
    ensures
        later_time(a, b) == a || later_time(a, b) == b,
        a is Some ==> later_time(a, b) is Some && later_time(a, b)->0 >= a->0,
        b is Some ==> later_time(a, b) is Some && later_time(a, b)->0 >= b->0,
{
}

/// A public username has no leading `@`, wherever it comes from.
pub proof fn law_usernames_are_bare(
    value: Seq<char>,
    existing: Option<Seq<char>>,
    candidate: Option<Seq<char>>,
)
    ensures
        is_bare(public_username(value)),
        is_bare(username_in_id(value)),
        is_bare(existing) ==> is_bare(merged_username(existing, candidate)),
{
    law_without_leading(trimmed(value), '@');
    law_without_leading(trimmed(value.skip("telegram@"@.len() as int)), '@');
    if let Some(name) = candidate {
        law_without_leading(trimmed(name), '@');
    }
}

/// The part before the first mark holds no mark, and the part behind it is the rest.
pub proof fn law_marks(a: Seq<char>, mark: char, b: Seq<char>)
    requires
        !a.contains(mark),
    ensures
        before_mark(a.push(mark) + b, mark) == a,
        after_mark(a.push(mark) + b, mark) == b,
        first_mark(a.push(mark) + b, mark) == a.len(),
        first_mark(a, mark) == a.len(),
        before_mark(a, mark) == a,
{
    let s = a.push(mark) + b;
    assert forall|i: int| 0 <= i < a.len() implies s[i] != mark by {
        assert(a.contains(a[i]));
    }
    assert forall|i: int| 0 <= i < a.len() implies a[i] != mark by {
        assert(a.contains(a[i]));
    }
    lemma_first_mark(s, mark, a.len() as int);
    lemma_first_mark(a, mark, a.len() as int);
    assert(s.take(a.len() as int) =~= a);
    assert(s.skip(a.len() as int + 1) =~= b);
    assert(a.take(a.len() as int) =~= a);
}

/// An id is that of an automated account where it stands for a Telegram user whose name ends in
/// `bot`, or for an account elsewhere whose name, whole or up to its own `@`, is `bot` or ends in
/// it behind a hyphen, an underscore or a full stop. An id without a connector is none.
pub proof fn law_bot_ids(prefix: Seq<char>, name: Seq<char>, local: Seq<char>, domain: Seq<char>)
    requires
        !prefix.contains('@'),
        !local.contains('@'),
    ensures
        !bot_id(prefix),
        lowered(prefix) == "telegram"@ ==> (bot_id(prefix.push('@') + name) <==> ends(
            lowered(name),
            "bot"@,
        )),
        lowered(prefix) != "telegram"@ && !name.contains('@') ==> (bot_id(prefix.push('@') + name)
            <==> (lowered(name) == "bot"@ || ends(lowered(name), "-bot"@) || ends(
            lowered(name),
            "_bot"@,
        ) || ends(lowered(name), ".bot"@))),
        lowered(prefix) != "telegram"@ && (lowered(local) == "bot"@ || ends(
            lowered(local),
            "-bot"@,
        ) || ends(lowered(local), "_bot"@) || ends(lowered(local), ".bot"@)) ==> bot_id(
            prefix.push('@') + (local.push('@') + domain),
        ),
{
    law_marks(prefix, '@', name);
    let whole = local.push('@') + domain;
    law_marks(prefix, '@', whole);
    assert forall|s: Seq<char>| !s.contains('@') implies !(#[trigger] lowered(s)).contains('@') by {
        if lowered(s).contains('@') {
            let i = lowered(s).index_of('@');
            assert(lower_char(s[i]) == '@');
            assert(s.contains(s[i]));
        }
    }
    assert(lowered(whole) =~= lowered(local).push('@') + lowered(domain));
    law_marks(lowered(local), '@', lowered(domain));
    if !name.contains('@') {
        law_marks(lowered(name), '@', Seq::empty());
    }
}

/// A name is that of an automated account where it is `bot`, ends in it as a word of its own, or
/// holds the title of a support, sales or assistant bot, in whatever case.
pub proof fn law_bot_names(name: Seq<char>, a: Seq<char>, b: Seq<char>)
    ensures
        lowered(trimmed(name)) == "bot"@ ==> bot_name(name),
        lowered(trimmed(name)) == a + " bot"@ ==> bot_name(name),
        lowered(trimmed(name)) == a + " support bot"@ + b ==> bot_name(name),
        lowered(trimmed(name)) == a + " sales bot"@ + b ==> bot_name(name),
        lowered(trimmed(name)) == a + " assistant bot"@ + b ==> bot_name(name),
        bot_name(name) ==> holds_text(lowered(trimmed(name)), "bot"@),
{
    let lower = lowered(trimmed(name));
    crate::text::law_parts(lower, " bot"@, a, b);
    crate::text::law_parts(lower, " support bot"@, a, b);
    crate::text::law_parts(lower, " sales bot"@, a, b);
    crate::text::law_parts(lower, " assistant bot"@, a, b);
    reveal_strlit("bot");
    reveal_strlit(" bot");
    reveal_strlit(" support bot");
    reveal_strlit(" sales bot");
    reveal_strlit(" assistant bot");
    if bot_name(name) {
        if lower == "bot"@ {
            assert(lower.subrange(0, 3) =~= "bot"@);
            assert(crate::text::stands_at(lower, "bot"@, 0));
        } else if ends(lower, " bot"@) {
            let at = lower.len() - 3;
            let tail = lower.skip(lower.len() - 4);
            assert(tail == " bot"@);
            assert forall|i: int| 0 <= i < 3 implies lower[at + i] == "bot"@[i] by {
                assert(tail[i + 1] == lower[at + i]);
            }
            assert(lower.subrange(at, at + 3) =~= "bot"@);
            assert(crate::text::stands_at(lower, "bot"@, at));
        } else if holds_text(lower, " support bot"@) {
            let k = choose|k: int| crate::text::stands_at(lower, " support bot"@, k);
            lemma_ends_in_bot(lower, " support bot"@, k);
        } else if holds_text(lower, " sales bot"@) {
            let k = choose|k: int| crate::text::stands_at(lower, " sales bot"@, k);
            lemma_ends_in_bot(lower, " sales bot"@, k);
        } else {
            let k = choose|k: int| crate::text::stands_at(lower, " assistant bot"@, k);
            lemma_ends_in_bot(lower, " assistant bot"@, k);
        }
    }
}

proof fn lemma_ends_in_bot(s: Seq<char>, part: Seq<char>, k: int)
    requires
        crate::text::stands_at(s, part, k),
        part.len() >= 3,
        part[part.len() - 3] == 'b',
        part[part.len() - 2] == 'o',
        part[part.len() - 1] == 't',
    ensures
        holds_text(s, "bot"@),
{
    reveal_strlit("bot");
    let at = k + part.len() - 3;
    let piece = s.subrange(k, k + part.len());
    assert forall|i: int| 0 <= i < 3 implies s[at + i] == "bot"@[i] by {
        assert(piece[part.len() - 3 + i] == s[at + i]);
    }
    assert(s.subrange(at, at + 3) =~= "bot"@);
    assert(crate::text::stands_at(s, "bot"@, at));
}

/// A username is that of a bot exactly where it ends in `bot`, in whatever case.
pub proof fn law_bot_usernames(a: Seq<char>, m: Seq<char>, username: Seq<char>)
    ensures
        lowered(m) == "bot"@ ==> bot_username(a + m),
        bot_username(username) ==> username.len() >= 3 && lowered(
            username.skip(username.len() - 3),
        ) == "bot"@,
{
    reveal_strlit("bot");
    crate::text::law_lowered_pieces(a, m);
    crate::text::law_parts(Seq::empty(), "bot"@, lowered(a), Seq::empty());
    if bot_username(username) {
        assert(lowered(username.skip(username.len() - 3)) =~= lowered(username).skip(
            username.len() - 3,
        ));
    }
}

/// The digits of a text, and its letters and digits in lower case, are picked out one by one.
pub proof fn law_picked_characters(s: Seq<char>)
    ensures
        digits_only(s) == s.filter(|c: char| '0' <= c <= '9'),
        name_token(s) == s.filter(
            |c: char| ('0' <= c <= '9') || ('a' <= c <= 'z') || ('A' <= c <= 'Z'),
        ).map_values(|c: char| lower_char(c)),
    decreases s.len(),
{
    reveal(Seq::filter);
    let alnum = |c: char| ('0' <= c <= '9') || ('a' <= c <= 'z') || ('A' <= c <= 'Z');
    if s.len() > 0 {
        law_picked_characters(s.drop_last());
        let before = s.drop_last().filter(alnum);
        if alnum(s.last()) {
            assert(before.push(s.last()).map_values(|c: char| lower_char(c))
                =~= before.map_values(|c: char| lower_char(c)).push(lower_char(s.last())));
        }
    } else {
        assert(name_token(s) =~= s.filter(alnum).map_values(|c: char| lower_char(c)));
    }
}

/// Telegram contacts are known by name or by number, and an id of another kind is none of them.
pub proof fn law_telegram_ids(rest: Seq<char>, id: Seq<char>)
    ensures
        telegram_id("telegram@"@ + rest),
        telegram_id("telegram-user-id@"@ + rest),
        telegram_id(id) ==> id == "telegram@"@ + id.skip(9) || id == "telegram-user-id@"@ + id.skip(
            17,
        ),
{
    reveal_strlit("telegram@");
    reveal_strlit("telegram-user-id@");
    crate::text::law_parts(id, "telegram@"@, Seq::empty(), rest);
    crate::text::law_parts(id, "telegram-user-id@"@, Seq::empty(), rest);
}

/// A name that starts like a contact id, in whatever case, is an id and no name. The ids are those
/// of Telegram, Google, Gmail, Lark and Slack.
pub proof fn law_id_like_names(name: Seq<char>, rest: Seq<char>)
    ensures
        ({
            let value = lowered(trimmed(name));
            &&& value == "telegram@"@ + rest ==> contact_id_like(name) && telegram_id_like(name)
            &&& value == "telegram-user-id@"@ + rest ==> contact_id_like(name)
                && telegram_id_like(name)
            &&& value == "google@"@ + rest ==> contact_id_like(name)
            &&& value == "gmail@"@ + rest ==> contact_id_like(name)
            &&& value == "lark@"@ + rest ==> contact_id_like(name)
            &&& value == "slack@"@ + rest ==> contact_id_like(name)
            &&& contact_id_like(name) && !telegram_id_like(name) ==> starts(value, "google@"@)
                || starts(value, "gmail@"@) || starts(value, "lark@"@) || starts(value, "slack@"@)
            &&& telegram_id_like(name) ==> starts(value, "telegram@"@) || starts(
                value,
                "telegram-user-id@"@,
            )
            &&& contact_id_like(name) || telegram_id_like(name) ==> value.contains('@')
        }),
{
    let value = lowered(trimmed(name));
    let none = Seq::<char>::empty();
    crate::text::law_parts(value, "telegram@"@, none, rest);
    crate::text::law_parts(value, "telegram-user-id@"@, none, rest);
    crate::text::law_parts(value, "google@"@, none, rest);
    crate::text::law_parts(value, "gmail@"@, none, rest);
    crate::text::law_parts(value, "lark@"@, none, rest);
    crate::text::law_parts(value, "slack@"@, none, rest);
    reveal_strlit("telegram@");
    reveal_strlit("telegram-user-id@");
    reveal_strlit("google@");
    reveal_strlit("gmail@");
    reveal_strlit("lark@");
    reveal_strlit("slack@");
    if starts(value, "telegram@"@) {
        assert(value.take(9)[8] == '@');
        assert(value[8] == '@');
    }
    if starts(value, "telegram-user-id@"@) {
        assert(value.take(17)[16] == '@');
        assert(value[16] == '@');
    }
    if starts(value, "google@"@) {
        assert(value.take(7)[6] == '@');
        assert(value[6] == '@');
    }
    if starts(value, "gmail@"@) {
        assert(value.take(6)[5] == '@');
        assert(value[5] == '@');
    }
    if starts(value, "lark@"@) {
        assert(value.take(5)[4] == '@');
        assert(value[4] == '@');
    }
    if starts(value, "slack@"@) {
        assert(value.take(6)[5] == '@');
        assert(value[5] == '@');
    }
}

/// Which of two names is fuller: any name is fuller than none, a name than an id, one of more words
/// than one of fewer, and of as many words the one of more bytes. The candidate is the later one.
pub proof fn law_fuller_names(existing: Option<Seq<char>>, candidate: Seq<char>)
    requires
        trimmed(candidate) == candidate,
    ensures
        cleaned(existing) is None ==> fuller_name(existing, candidate) && fuller_contact_name(
            existing,
            candidate,
        ) && fuller_telegram_name(existing, candidate),
        cleaned(existing) is Some ==> {
            let present = cleaned(existing)->0;
            let more = words(candidate).len() > words(present).len() || (words(candidate).len()
                == words(present).len() && byte_len(candidate) > byte_len(present));
            &&& fuller_name(existing, candidate) == more
            &&& contact_id_like(present) && !contact_id_like(candidate) ==> fuller_contact_name(
                existing,
                candidate,
            )
            &&& !contact_id_like(present) && contact_id_like(candidate) ==> !fuller_contact_name(
                existing,
                candidate,
            )
            &&& contact_id_like(present) == contact_id_like(candidate) ==> fuller_contact_name(
                existing,
                candidate,
            ) == more
            &&& telegram_id_like(present) && !telegram_id_like(candidate) ==> fuller_telegram_name(
                existing,
                candidate,
            )
            &&& !telegram_id_like(present) && telegram_id_like(candidate) ==> !fuller_telegram_name(
                existing,
                candidate,
            )
            &&& telegram_id_like(present) == telegram_id_like(candidate) ==> fuller_telegram_name(
                existing,
                candidate,
            ) == more
        },
{
}

/// A name takes the place of another exactly where it is fuller; a blank one never does.
pub proof fn law_merged_names(existing: Option<Seq<char>>, candidate: Option<Seq<char>>)
    ensures
        cleaned(candidate) is None ==> merged_contact_name(existing, candidate) == existing
            && merged_telegram_name(existing, candidate) == existing,
        cleaned(candidate) is Some ==> {
            let name = cleaned(candidate)->0;
            &&& fuller_contact_name(existing, name) ==> merged_contact_name(existing, candidate)
                == Some(name)
            &&& !fuller_contact_name(existing, name) ==> merged_contact_name(existing, candidate)
                == existing
            &&& fuller_telegram_name(existing, name) ==> merged_telegram_name(existing, candidate)
                == Some(name)
            &&& !fuller_telegram_name(existing, name) ==> merged_telegram_name(existing, candidate)
                == existing
        },
        candidate is None ==> merged_peer_name(existing, candidate) == existing,
        candidate is Some && fuller_name(existing, candidate->0) ==> merged_peer_name(
            existing,
            candidate,
        ) == candidate,
        candidate is Some && !fuller_name(existing, candidate->0) ==> merged_peer_name(
            existing,
            candidate,
        ) == existing,
{
}

/// A blank is filled in, and nothing else is changed.
pub proof fn law_filled(existing: Option<Seq<char>>, candidate: Option<Seq<char>>)
    ensures
        cleaned(existing) is Some ==> filled(existing, candidate) == existing,
        cleaned(existing) is None ==> filled(existing, candidate) == candidate,
{
}

/// A username is taken out of any number of `@` before it and of white space around them, and out of
/// the id of a Telegram contact that is known by name.
pub proof fn law_public_username(
    before: Seq<char>,
    count: nat,
    username: Seq<char>,
    after: Seq<char>,
)
    requires
        crate::text::all_space(before),
        crate::text::all_space(after),
        username.len() > 0,
        username[0] != '@',
        !crate::text::is_space(username.last()),
        count == 0 ==> !crate::text::is_space(username[0]),
    ensures
        ({
            let written = before + (Seq::new(count, |i: int| '@') + username) + after;
            &&& public_username(written) == Some(username)
            &&& username_in_id("telegram@"@ + written) == Some(username)
            &&& merged_username(None, Some(written)) == Some(username)
        }),
        public_username(before) is None,
        public_username(before + Seq::new(count, |i: int| '@') + after) is None,
{
    let marks = Seq::new(count, |i: int| '@');
    let core = marks + username;
    let written = before + core + after;
    let none = Seq::<char>::empty();
    assert(core.last() == username.last());
    if count > 0 {
        assert(core[0] == '@');
    } else {
        assert(core[0] == username[0]);
    }
    crate::text::law_trimming(before, core, after);
    crate::text::law_leading_marks(count, '@', username);
    crate::text::law_parts(none, "telegram@"@, none, written);
    assert(("telegram@"@ + written).skip("telegram@"@.len() as int) =~= written);
    crate::text::law_trimming(before, none, none);
    assert(before + none + none =~= before);
    crate::text::law_trimming(before, marks, after);
    crate::text::law_leading_marks(count, '@', none);
    assert(marks + none =~= marks);
}

/// A username that is there stays, and one is taken where there was none.
pub proof fn law_merged_username(existing: Option<Seq<char>>, candidate: Option<Seq<char>>)
    ensures
        existing is Some ==> merged_username(existing, candidate) == existing,
        existing is None && candidate is None ==> merged_username(existing, candidate) is None,
        existing is None && candidate is Some ==> merged_username(existing, candidate)
            == public_username(candidate->0),
{
}

/// The handle is shown with a name of one word that is written otherwise, and with no other name.
pub proof fn law_shown_handles(name: Seq<char>, username: Seq<char>)
    ensures
        words(trimmed(name)).len() > 1 ==> !shows_handle(name, username),
        name_token(trimmed(name)).len() == 0 ==> !shows_handle(name, username),
        name_token(trimmed(name)) == name_token(without_leading(username, '@')) ==> !shows_handle(
            name,
            username,
        ),
        words(trimmed(name)).len() <= 1 && name_token(trimmed(name)).len() > 0 && name_token(
            trimmed(name),
        ) != name_token(without_leading(username, '@')) ==> shows_handle(name, username),
{
}

/// A handle is public where it has from five to thirty-two bytes, holds lower-case letters, digits
/// and underscores alone, and is not made of digits.
pub proof fn law_public_handles(username: Seq<char>)
    ensures
        public_handle(username) ==> 5 <= byte_len(username) <= 32,
        forall|i: int|
            public_handle(username) && 0 <= i < username.len() ==> ('a' <= #[trigger] username[i]
                <= 'z') || ('0' <= username[i] <= '9') || username[i] == '_',
        (forall|i: int| 0 <= i < username.len() ==> '0' <= #[trigger] username[i] <= '9')
            ==> !public_handle(username),
        5 <= byte_len(username) <= 32 && (forall|i: int|
            0 <= i < username.len() ==> ('a' <= #[trigger] username[i] <= 'z') || ('0'
                <= username[i] <= '9') || username[i] == '_') && (exists|i: int|
            0 <= i < username.len() && !('0' <= #[trigger] username[i] <= '9')) ==> public_handle(
            username,
        ),
{
}

/// The handle in a contact id stands behind `telegram@`, in lower case and without leading `@`. No
/// other id holds one.
pub proof fn law_handles_in_ids(id: Seq<char>, count: nat, username: Seq<char>)
    requires
        username.len() > 0,
        username[0] != '@',
        !crate::text::is_space(username[0]),
        !crate::text::is_space(username.last()),
    ensures
        ({
            let written = "telegram@"@ + (Seq::new(count, |i: int| '@') + username);
            &&& public_handle(lowered(username)) ==> handle_in_id(written) == Some(
                lowered(username),
            )
            &&& !public_handle(lowered(username)) ==> handle_in_id(written) is None
        }),
        !starts(trimmed(id), "telegram@"@) ==> handle_in_id(id) is None,
{
    let prefix = "telegram@"@;
    let core = Seq::new(count, |i: int| '@') + username;
    let written = prefix + core;
    assert(trimmed(written) == written) by {
        reveal_strlit("telegram@");
        assert(written[0] == 't');
        assert(written.last() == username.last());
        lemma_trimmed_already(written);
    }
    assert(written.skip(prefix.len() as int) =~= core);
    assert(trimmed(core) == core) by {
        assert(core.last() == username.last());
        assert(core[0] == if count > 0 {
            '@'
        } else {
            username[0]
        });
        lemma_trimmed_already(core);
    }
    assert(without_leading(core, '@') == username) by {
        crate::text::law_leading_marks(count, '@', username);
    }
    assert(starts(written, prefix)) by {
        crate::text::law_parts(Seq::empty(), prefix, Seq::empty(), core);
    }
}

proof fn lemma_trimmed_already(s: Seq<char>)
    requires
        s.len() > 0,
        !crate::text::is_space(s[0]),
        !crate::text::is_space(s.last()),
    ensures
        trimmed(s) == s,
{
    let none = Seq::<char>::empty();
    crate::text::law_trimming(none, s, none);
    assert(none + s + none =~= s);
}

/// First and last name stand with one space between them; a blank one is left out.
pub proof fn law_full_name(first: Seq<char>, last: Option<Seq<char>>)
    ensures
        nonblank(first) is Some && cleaned(last) is Some ==> full_name(first, last) == Some(
            trimmed(first) + " "@ + cleaned(last)->0,
        ),
        nonblank(first) is Some && cleaned(last) is None ==> full_name(first, last) == Some(
            trimmed(first),
        ),
        nonblank(first) is None ==> full_name(first, last) == cleaned(last),
{
}

} // verus!
