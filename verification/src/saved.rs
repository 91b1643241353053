//! The contacts that the user keeps.

use crate::errors::ContactError;
use crate::models::{SavedContact, SavedView};
use crate::order::{
    in_order, law_sorting_orders, lemma_select, lemma_select_end, lemma_select_pairs,
    lemma_select_sorted, lemma_sorted_contains, lemma_sorting_keeps_pairs, pairwise, select,
    sorted_by, stable_sort, views, weak_order, Order,
};
use crate::text::{
    as_text, clean, clean_opt, cleaned, comes_before, contains, first_of, holds_text,
    law_order_irreflexive, law_order_total, law_order_transitive, lowered, nonblank, opt_str,
    opt_text, own, same_text, text_less, texts, to_lower, trim, trimmed,
};
use crate::text_map::{lookup, TextMap};
use vstd::prelude::*;
use vstd::string::*;

verus! {

/// The query stands in the name, in the description or in an id of a contact, whatever the case.
pub open spec fn saved_matches(query: Seq<char>) -> spec_fn(SavedView) -> bool {
    |contact: SavedView|
        {
            ||| holds_text(lowered(contact.name), lowered(query))
            ||| holds_text(lowered(contact.description), lowered(query))
            ||| exists|i: int|
                0 <= i < contact.contact_ids.len() && holds_text(
                    lowered(#[trigger] contact.contact_ids[i]),
                    lowered(query),
                )
        }
}

/// The saved contacts that match a query, or all of them where there is none.
pub open spec fn matching_saved(contacts: Seq<SavedView>, query: Option<Seq<char>>) -> Seq<
    SavedView,
> {
    match query {
        Some(query) => select(contacts, saved_matches(query)),
        None => contacts,
    }
}

/// The first avatar that is known for one of several ids.
pub open spec fn avatar_among(ids: Seq<Seq<char>>, avatars: Map<Seq<char>, Seq<char>>) -> Option<
    Seq<char>,
>
    decreases ids.len(),
{
    if ids.len() == 0 {
        None
    } else {
        first_of(lookup(avatars, ids[0]), avatar_among(ids.drop_first(), avatars))
    }
}

/// A contact with the avatar that is known for it, where it has none of its own.
pub open spec fn with_known_avatar(
    contact: SavedView,
    avatars: Map<Seq<char>, Seq<char>>,
) -> SavedView {
    if cleaned(contact.avatar) is Some {
        contact
    } else {
        SavedView { avatar: avatar_among(contact.contact_ids, avatars), ..contact }
    }
}

/// The contacts with the avatars that are known for them. Where none is known at all, nothing is
/// changed.
pub open spec fn with_known_avatars(
    contacts: Seq<SavedView>,
    avatars: Map<Seq<char>, Seq<char>>,
) -> Seq<SavedView> {
    if avatars == Map::<Seq<char>, Seq<char>>::empty() {
        contacts
    } else {
        contacts.map_values(|contact: SavedView| with_known_avatar(contact, avatars))
    }
}

/// Two lists of normalized ids have one in common.
pub open spec fn share_id(left: Seq<Seq<char>>, right: Seq<Seq<char>>) -> bool {
    exists|i: int| 0 <= i < left.len() && right.contains(#[trigger] left[i])
}

/// A contact in the store, with the normalized forms of its ids.
#[derive(Debug)]
pub struct StoredContact {
    pub contact: SavedContact,
    pub normal_ids: Vec<String>,
}

pub ghost struct StoredView {
    pub contact: SavedView,
    pub normal_ids: Seq<Seq<char>>,
}

impl View for StoredContact {
    type V = StoredView;

    open spec fn view(&self) -> StoredView {
        StoredView { contact: self.contact@, normal_ids: texts(self.normal_ids@) }
    }
}

/// The ids of a contact and of all the others that share one of them.
pub open spec fn with_overlapping_ids(
    contacts: Seq<StoredView>,
    saved_id: Seq<char>,
    contact_ids: Seq<Seq<char>>,
    normal_ids: Seq<Seq<char>>,
) -> Seq<Seq<char>>
    decreases contacts.len(),
{
    if contacts.len() == 0 {
        contact_ids
    } else {
        let before = with_overlapping_ids(
            contacts.drop_last(),
            saved_id,
            contact_ids,
            normal_ids,
        );
        let other = contacts.last();
        if other.contact.id == saved_id || !share_id(other.normal_ids, normal_ids) {
            before
        } else {
            before + other.contact.contact_ids
        }
    }
}

/// A contact stays in the store beside a saved one: it has another id and shares no contact id.
pub open spec fn stays_beside(saved_id: Seq<char>, normal_ids: Seq<Seq<char>>) -> spec_fn(
    StoredView,
) -> bool {
    |other: StoredView|
        other.contact.id != saved_id && !share_id(other.normal_ids, normal_ids)
}

pub open spec fn contacts_in(stored: Seq<StoredView>) -> Seq<SavedView> {
    stored.map_values(|s: StoredView| s.contact)
}

/// What the user asks to save.
#[derive(Debug)]
pub struct ContactSaveRequest {
    pub id: Option<String>,
    pub name: String,
    pub description: String,
    pub avatar: Option<String>,
}

pub ghost struct SaveView {
    pub id: Option<Seq<char>>,
    pub name: Seq<char>,
    pub description: Seq<char>,
    pub avatar: Option<Seq<char>>,
}

impl View for ContactSaveRequest {
    type V = SaveView;

    open spec fn view(&self) -> SaveView {
        SaveView {
            id: opt_text(self.id),
            name: self.name@,
            description: self.description@,
            avatar: opt_text(self.avatar),
        }
    }
}

/// The contact that is saved.
pub open spec fn saved_contact(
    id: Seq<char>,
    request: SaveView,
    contact_ids: Seq<Seq<char>>,
) -> SavedView {
    SavedView {
        id,
        name: trimmed(request.name),
        description: trimmed(request.description),
        avatar: cleaned(request.avatar),
        contact_ids,
    }
}

/// Saved contacts are ordered by their names, whatever the case.
pub open spec fn named_before(a: SavedView, b: SavedView) -> bool {
    text_less(lowered(a.name), lowered(b.name))
}

pub struct ByName;

impl Order<SavedContact> for ByName {
    open spec fn precedes(a: SavedView, b: SavedView) -> bool {
        named_before(a, b)
    }

    fn is_before(a: &SavedContact, b: &SavedContact) -> (r: bool) {
        comes_before(to_lower(a.name.as_str()).as_str(), to_lower(b.name.as_str()).as_str())
    }
}

pub open spec fn name_order() -> spec_fn(SavedView, SavedView) -> bool {
    |a: SavedView, b: SavedView| <ByName as Order<SavedContact>>::precedes(a, b)
}

/// The store after a contact was saved: the contacts that stay beside it, and it, by name.
pub open spec fn store_with(
    stored: Seq<StoredView>,
    id: Seq<char>,
    request: SaveView,
    contact_ids: Seq<Seq<char>>,
    normal_ids: Seq<Seq<char>>,
) -> Seq<SavedView> {
    sorted_by(
        contacts_in(select(stored, stays_beside(id, normal_ids))).push(
            saved_contact(id, request, contact_ids),
        ),
        name_order(),
    )
}

pub open spec fn has_id(contacts: Seq<SavedView>, id: Seq<char>) -> bool {
    exists|i: int| 0 <= i < contacts.len() && (#[trigger] contacts[i]).id == id
}

pub open spec fn other_than(id: Seq<char>) -> spec_fn(SavedView) -> bool {
    |contact: SavedView| contact.id != id
}

/// Whether a query stands in a saved contact.
fn saved_contact_matches(contact: &SavedContact, query: &str) -> (r: bool)
    ensures
        r == saved_matches(query@)(contact@),
{
    let wanted = to_lower(query);
    if contains(to_lower(contact.name.as_str()).as_str(), wanted.as_str()) {
        return true;
    }
    if contains(to_lower(contact.description.as_str()).as_str(), wanted.as_str()) {
        return true;
    }
    let ghost ids = contact@.contact_ids;
    for i in 0..contact.contact_ids.len()
        invariant
            ids == texts(contact.contact_ids@),
            ids == contact@.contact_ids,
            wanted@ == lowered(query@),
            forall|j: int| 0 <= j < i ==> !holds_text(lowered(#[trigger] ids[j]), wanted@),
    {
        assert(ids[i as int] == contact.contact_ids@[i as int]@);
        if contains(to_lower(contact.contact_ids[i].as_str()).as_str(), wanted.as_str()) {
            return true;
        }
    }
    false
}

/// The saved contacts that match a query.
pub fn filtered_saved_contacts(contacts: Vec<SavedContact>, query: Option<&str>) -> (r: Vec<
    SavedContact,
>)
    ensures
        views(r@) == matching_saved(views(contacts@), opt_str(query)),
{
    let query = match query {
        Some(query) => query,
        None => return contacts,
    };
    let ghost list = views(contacts@);
    let ghost keep = saved_matches(query@);
    let mut out: Vec<SavedContact> = Vec::new();
    assert(views(out@) =~= select(list.take(0), keep));
    for contact in it: contacts
        invariant
            views(it.seq()) == list,
            keep == saved_matches(query@),
            views(out@) == select(list.take(it.index()), keep),
    {
        let ghost before = views(out@);
        let ghost item = contact@;
        proof {
            assert(list.take(it.index() + 1).drop_last() =~= list.take(it.index()));
            assert(list.take(it.index() + 1).last() == item);
        }
        if saved_contact_matches(&contact, query) {
            out.push(contact);
            assert(views(out@) =~= before.push(item));
        }
    }
    assert(list.take(list.len() as int) =~= list);
    out
}

/// The first avatar that is known for one of several ids.
fn known_avatar(ids: &Vec<String>, avatars: &TextMap<String>) -> (r: Option<String>)
    ensures
        opt_text(r) == avatar_among(texts(ids@), avatars@),
{
    let ghost all = texts(ids@);
    assert(all.skip(0) =~= all);
    for i in 0..ids.len()
        invariant
            all == texts(ids@),
            avatar_among(all, avatars@) == avatar_among(all.skip(i as int), avatars@),
    {
        assert(all.skip(i as int)[0] == ids@[i as int]@);
        assert(all.skip(i as int).drop_first() =~= all.skip(i + 1));
        if let Some(avatar) = avatars.get(ids[i].as_str()) {
            return Some(avatar.clone());
        }
    }
    None
}

/// Gives contacts without an avatar the one that is known for them.
pub fn enrich_saved_contact_avatars(contacts: Vec<SavedContact>, avatars: &TextMap<String>) -> (r:
    Vec<SavedContact>)
    ensures
        views(r@) == with_known_avatars(views(contacts@), avatars@),
{
    if avatars.is_empty() {
        return contacts;
    }
    let ghost all = views(contacts@);
    let mut out: Vec<SavedContact> = Vec::new();
    for contact in it: contacts
        invariant
            views(it.seq()) == all,
            views(out@) == all.take(it.index()).map_values(
                |contact: SavedView| with_known_avatar(contact, avatars@),
            ),
    {
        let ghost before = views(out@);
        assert(all[it.index()] == contact@);
        let ghost item = with_known_avatar(contact@, avatars@);
        let mut contact = contact;
        if clean_opt(as_text(&contact.avatar)).is_none() {
            contact.avatar = known_avatar(&contact.contact_ids, avatars);
        }
        out.push(contact);
        assert(views(out@) =~= before.push(item));
        assert(all.take(it.index() + 1).map_values(
            |contact: SavedView| with_known_avatar(contact, avatars@),
        ) =~= before.push(item));
    }
    assert(all.take(all.len() as int) =~= all);
    out
}

/// Whether two lists of normalized ids have one in common.
pub fn contact_ids_overlap(left: &Vec<String>, right: &Vec<String>) -> (r: bool)
    ensures
        r == share_id(texts(left@), texts(right@)),
{
    let ghost a = texts(left@);
    let ghost b = texts(right@);
    for i in 0..left.len()
        invariant
            a == texts(left@),
            b == texts(right@),
            forall|k: int| 0 <= k < i ==> !b.contains(#[trigger] a[k]),
    {
        assert(a[i as int] == left@[i as int]@);
        for j in 0..right.len()
            invariant
                0 <= i < left@.len(),
                a == texts(left@),
                b == texts(right@),
                forall|k: int| 0 <= k < j ==> #[trigger] b[k] != a[i as int],
        {
            assert(b[j as int] == right@[j as int]@);
            assert(a[i as int] == left@[i as int]@);
            if same_text(left[i].as_str(), right[j].as_str()) {
                assert(b.contains(a[i as int]));
                return true;
            }
        }
        assert(!b.contains(a[i as int]));
    }
    false
}

/// Adds the ids of the other contacts that share one. `normal_ids` are the normalized forms of
/// `contact_ids`.
pub fn merged_overlapping_contact_ids(
    contacts: &Vec<StoredContact>,
    saved_id: &str,
    contact_ids: Vec<String>,
    normal_ids: &Vec<String>,
) -> (r: Vec<String>)
    ensures
        texts(r@) == with_overlapping_ids(
            views(contacts@),
            saved_id@,
            texts(contact_ids@),
            texts(normal_ids@),
        ),
{
    let ghost all = views(contacts@);
    let ghost first = texts(contact_ids@);
    let mut merged = contact_ids;
    for i in 0..contacts.len()
        invariant
            all == views(contacts@),
            texts(merged@) == with_overlapping_ids(
                all.take(i as int),
                saved_id@,
                first,
                texts(normal_ids@),
            ),
    {
        assert(all.take(i + 1).drop_last() =~= all.take(i as int));
        assert(all.take(i + 1).last() == contacts@[i as int]@);
        let other = &contacts[i];
        if !same_text(other.contact.id.as_str(), saved_id) && contact_ids_overlap(
            &other.normal_ids,
            normal_ids,
        ) {
            let ghost before = texts(merged@);
            let mut more = crate::peer_cache::copy_list(&other.contact.contact_ids);
            let ghost added = texts(more@);
            merged.append(&mut more);
            assert(texts(merged@) =~= before + added);
        }
    }
    assert(all.take(all.len() as int) =~= all);
    merged
}

/// The ids that a contact is saved with, before they are normalized: its own, which are valid ones,
/// and those of the contacts that share one with it. A contact without a name or without a valid id
/// is refused. `normal_ids` are the normalized forms of `contact_ids`.
pub fn contact_ids_to_save(
    stored: &Vec<StoredContact>,
    id: &str,
    request: &ContactSaveRequest,
    contact_ids: Vec<String>,
    normal_ids: &Vec<String>,
) -> (r: Result<Vec<String>, ContactError>)
    ensures
        match r {
            Ok(merged) => nonblank(request@.name) is Some && contact_ids@.len() > 0 && texts(
                merged@,
            ) == with_overlapping_ids(
                views(stored@),
                id@,
                texts(contact_ids@),
                texts(normal_ids@),
            ),
            Err(error) => (error == ContactError::EmptyName && nonblank(request@.name) is None) || (
            error == ContactError::NoContactIds && nonblank(request@.name) is Some
                && contact_ids@.len() == 0),
        },
{
    if clean(request.name.as_str()).is_none() {
        return Err(ContactError::EmptyName);
    }
    if contact_ids.len() == 0 {
        return Err(ContactError::NoContactIds);
    }
    Ok(merged_overlapping_contact_ids(stored, id, contact_ids, normal_ids))
}

/// The id that a contact is saved under: the one that is asked for, or else a fresh one.
pub fn contact_id_or(id: Option<&str>, fresh: String) -> (r: String)
    ensures
        r@ == (match cleaned(opt_str(id)) {
            Some(id) => id,
            None => fresh@,
        }),
{
    match clean_opt(id) {
        Some(id) => id.to_owned(),
        None => fresh,
    }
}

/// The text of a random UUID: thirty-two hexadecimal digits in five groups, of version four.
pub open spec fn uuid_text(text: Seq<char>) -> bool {
    &&& text.len() == 36
    &&& text[8] == '-' && text[13] == '-' && text[18] == '-' && text[23] == '-'
    &&& text[14] == '4'
    &&& text[19] == '8' || text[19] == '9' || text[19] == 'a' || text[19] == 'b'
    &&& forall|i: int|
        0 <= i < 36 && i != 8 && i != 13 && i != 18 && i != 23 ==> {
            let c = #[trigger] text[i];
            ('0' <= c <= '9') || ('a' <= c <= 'f')
        }
}

/// `uuid::Uuid::new_v4`, as text. Which UUID comes out is a matter of chance; of each one the
/// hyphenated form is in lower case and tells the version and the variant.
#[verifier::external_body]
fn random_uuid() -> (r: String)
    ensures
        uuid_text(r@),
{
    uuid::Uuid::new_v4().to_string()
}

/// The id that a contact is saved under: the one that is asked for, or else a random one.
pub fn contact_id_for(id: Option<&str>) -> (r: String)
    ensures
        match cleaned(opt_str(id)) {
            Some(id) => r@ == id,
            None => uuid_text(r@),
        },
{
    contact_id_or(id, random_uuid())
}

/// Saves a contact. `normal_ids` are the normalized forms of `contact_ids`.
pub fn handle_contacts_save(
    stored: Vec<StoredContact>,
    id: &str,
    request: &ContactSaveRequest,
    contact_ids: Vec<String>,
    normal_ids: &Vec<String>,
) -> (r: Vec<SavedContact>)
    ensures
        views(r@) == store_with(
            views(stored@),
            id@,
            request@,
            texts(contact_ids@),
            texts(normal_ids@),
        ),
{
    let ghost all = views(stored@);
    let ghost keep = stays_beside(id@, texts(normal_ids@));
    let mut contacts: Vec<SavedContact> = Vec::new();
    assert(views(contacts@) =~= contacts_in(select(all.take(0), keep)));
    for entry in it: stored
        invariant
            views(it.seq()) == all,
            keep == stays_beside(id@, texts(normal_ids@)),
            views(contacts@) == contacts_in(select(all.take(it.index()), keep)),
    {
        let ghost before = views(contacts@);
        let ghost kept = select(all.take(it.index()), keep);
        let ghost item = entry@;
        proof {
            assert(all.take(it.index() + 1).drop_last() =~= all.take(it.index()));
            assert(all.take(it.index() + 1).last() == item);
        }
        if !same_text(entry.contact.id.as_str(), id) && !contact_ids_overlap(
            &entry.normal_ids,
            normal_ids,
        ) {
            contacts.push(entry.contact);
            assert(views(contacts@) =~= before.push(item.contact));
            assert(contacts_in(kept.push(item)) =~= contacts_in(kept).push(item.contact));
        }
    }
    assert(all.take(all.len() as int) =~= all);
    let ghost beside = views(contacts@);
    let saved = SavedContact {
        id: id.to_owned(),
        name: trim(request.name.as_str()).to_owned(),
        description: trim(request.description.as_str()).to_owned(),
        avatar: own(clean_opt(as_text(&request.avatar))),
        contact_ids,
    };
    let ghost new = saved@;
    contacts.push(saved);
    assert(views(contacts@) =~= beside.push(new));
    stable_sort::<SavedContact, ByName>(contacts)
}

/// Deletes a contact.
pub fn handle_contacts_delete(contacts: Vec<SavedContact>, id: &str) -> (r: Result<
    Vec<SavedContact>,
    ContactError,
>)
    ensures
        match r {
            Ok(left) => nonblank(id@) is Some && has_id(views(contacts@), trimmed(id@)) && views(
                left@,
            ) == select(views(contacts@), other_than(trimmed(id@))),
            Err(ContactError::EmptyId) => nonblank(id@) is None,
            Err(ContactError::NotFound(missing)) => nonblank(id@) == Some(missing@) && !has_id(
                views(contacts@),
                missing@,
            ),
            Err(_) => false,
        },
{
    let id = match clean(id) {
        Some(id) => id,
        None => return Err(ContactError::EmptyId),
    };
    let ghost all = views(contacts@);
    let ghost keep = other_than(id@);
    let mut found = false;
    let mut left: Vec<SavedContact> = Vec::new();
    assert(views(left@) =~= select(all.take(0), keep));
    for contact in it: contacts
        invariant
            views(it.seq()) == all,
            keep == other_than(id@),
            views(left@) == select(all.take(it.index()), keep),
            found == exists|i: int| 0 <= i < it.index() && (#[trigger] all[i]).id == id@,
    {
        let ghost before = views(left@);
        let ghost item = contact@;
        proof {
            assert(all.take(it.index() + 1).drop_last() =~= all.take(it.index()));
            assert(all.take(it.index() + 1).last() == item);
            assert(all[it.index()] == item);
        }
        if same_text(contact.id.as_str(), id) {
            found = true;
        } else {
            left.push(contact);
            assert(views(left@) =~= before.push(item));
        }
    }
    assert(all.take(all.len() as int) =~= all);
    if found {
        Ok(left)
    } else {
        Err(ContactError::NotFound(id.to_owned()))
    }
}

/// After a contact was saved the store holds it, and of the others those that have another id and
/// share no contact id with it. They are sorted by name.
pub proof fn law_saving(
    stored: Seq<StoredView>,
    id: Seq<char>,
    request: SaveView,
    contact_ids: Seq<Seq<char>>,
    normal_ids: Seq<Seq<char>>,
)
    ensures
        ({
            let store = store_with(stored, id, request, contact_ids, normal_ids);
            let saved = saved_contact(id, request, contact_ids);
            &&& store.contains(saved)
            &&& forall|x: SavedView| #[trigger]
                store.contains(x) && x.id == id ==> x == saved
            &&& forall|other: StoredView|
                #![trigger stored.contains(other)]
                stored.contains(other) && other.contact.id != id && !share_id(
                    other.normal_ids,
                    normal_ids,
                ) ==> store.contains(other.contact)
            &&& forall|x: SavedView| #[trigger]
                store.contains(x) && x != saved ==> exists|other: StoredView|
                    stored.contains(other) && other.contact == x && !share_id(
                        #[trigger] other.normal_ids,
                        normal_ids,
                    )
            &&& in_order(store, name_order())
        }),
{
    let keep = stays_beside(id, normal_ids);
    let kept = select(stored, keep);
    let beside = contacts_in(kept);
    let saved = saved_contact(id, request, contact_ids);
    let all = beside.push(saved);
    let store = store_with(stored, id, request, contact_ids, normal_ids);
    lemma_select(stored, keep);
    assert(all[beside.len() as int] == saved);
    lemma_sorted_contains(all, name_order(), saved);
    assert forall|x: SavedView| #[trigger] store.contains(x) implies (x == saved || exists|
        other: StoredView,
    |
        stored.contains(other) && other.contact == x && other.contact.id != id && !share_id(
            #[trigger] other.normal_ids,
            normal_ids,
        )) by {
        lemma_sorted_contains(all, name_order(), x);
        let k = all.index_of(x);
        if k < beside.len() {
            assert(beside[k] == kept[k].contact);
            assert(kept.contains(kept[k]));
            let other = kept[k];
            assert(stored.contains(other) && keep(other));
            assert(!share_id(other.normal_ids, normal_ids));
        }
    }
    assert forall|other: StoredView|
        #![trigger stored.contains(other)]
        stored.contains(other) && other.contact.id != id && !share_id(
            other.normal_ids,
            normal_ids,
        ) implies store.contains(other.contact) by {
        assert(keep(other));
        assert(kept.contains(other));
        let k = kept.index_of(other);
        assert(all[k] == other.contact);
        lemma_sorted_contains(all, name_order(), other.contact);
    }
    lemma_name_order();
    law_sorting_orders(all, name_order(), |contact: SavedView| true);
}

/// Contacts can be ordered by name.
pub proof fn lemma_name_order()
    ensures
        weak_order(name_order(), |contact: SavedView| true),
{
    let before = name_order();
    assert forall|a: SavedView, b: SavedView| #[trigger] before(a, b) implies !before(b, a) by {
        law_order_irreflexive(lowered(a.name));
        if before(b, a) {
            law_order_transitive(lowered(a.name), lowered(b.name), lowered(a.name));
        }
    }
    assert forall|a: SavedView, b: SavedView, c: SavedView|
        !(#[trigger] before(a, b)) && !(#[trigger] before(b, c)) implies !before(a, c) by {
        law_order_total(lowered(a.name), lowered(b.name));
        law_order_total(lowered(b.name), lowered(c.name));
        law_order_irreflexive(lowered(a.name));
        if before(b, a) && before(c, b) {
            law_order_transitive(lowered(c.name), lowered(b.name), lowered(a.name));
        }
        if before(a, c) && before(c, a) {
            law_order_transitive(lowered(a.name), lowered(c.name), lowered(a.name));
        }
    }
}

/// After a contact was deleted no contact has its id, and every other contact is still there.
pub proof fn law_deleting(contacts: Seq<SavedView>, id: Seq<char>)
    ensures
        !has_id(select(contacts, other_than(id)), id),
        forall|x: SavedView| #[trigger]
            select(contacts, other_than(id)).contains(x) <==> contacts.contains(x) && x.id != id,
{
    let left = select(contacts, other_than(id));
    lemma_select(contacts, other_than(id));
    if has_id(left, id) {
        let i = choose|i: int| 0 <= i < left.len() && (#[trigger] left[i]).id == id;
        assert(left.contains(left[i]));
    }
}

/// Deleting a contact that was saved leaves the contacts that stayed beside it.
pub proof fn law_delete_after_save(
    stored: Seq<StoredView>,
    id: Seq<char>,
    request: SaveView,
    contact_ids: Seq<Seq<char>>,
    normal_ids: Seq<Seq<char>>,
)
    ensures
        select(store_with(stored, id, request, contact_ids, normal_ids), other_than(id))
            == sorted_by(
            contacts_in(select(stored, stays_beside(id, normal_ids))),
            name_order(),
        ),
{
    let keep = stays_beside(id, normal_ids);
    let kept = select(stored, keep);
    let beside = contacts_in(kept);
    let all = beside.push(saved_contact(id, request, contact_ids));
    let others = other_than(id);
    lemma_select(stored, keep);
    assert forall|i: int| 0 <= i < beside.len() implies others(#[trigger] beside[i]) by {
        assert(kept.contains(kept[i]));
        assert(keep(kept[i]));
    }
    lemma_select_end(beside, others, 0);
    assert(beside.skip(0) =~= beside);
    assert(all.drop_last() =~= beside);
    lemma_name_order();
    lemma_select_sorted(all, name_order(), |contact: SavedView| true, others);
}

/// Giving contacts the avatars that are known changes nothing but avatars, and of these none that is
/// there. Doing it again changes nothing.
pub proof fn law_known_avatars(contacts: Seq<SavedView>, avatars: Map<Seq<char>, Seq<char>>)
    ensures
        ({
            let shown = with_known_avatars(contacts, avatars);
            &&& shown.len() == contacts.len()
            &&& forall|i: int|
                #![trigger shown[i]]
                0 <= i < contacts.len() ==> shown[i] == (SavedView {
                    avatar: shown[i].avatar,
                    ..contacts[i]
                }) && (cleaned(contacts[i].avatar) is Some ==> shown[i] == contacts[i])
            &&& with_known_avatars(shown, avatars) == shown
        }),
{
    let shown = with_known_avatars(contacts, avatars);
    assert(with_known_avatars(shown, avatars) =~= shown);
}

/// An id of a list has a normalized form. `ids` holds the normalized form of each id that has one.
pub open spec fn has_form(
    list: Seq<Seq<char>>,
    ids: Map<Seq<char>, Seq<char>>,
    form: Seq<char>,
) -> bool {
    exists|k: int| 0 <= k < list.len() && lookup(ids, #[trigger] list[k]) == Some(form)
}

/// The normalized forms of a list of ids are listed.
pub open spec fn lists_forms(
    forms: Seq<Seq<char>>,
    list: Seq<Seq<char>>,
    ids: Map<Seq<char>, Seq<char>>,
) -> bool {
    forall|form: Seq<char>| #[trigger] forms.contains(form) <==> has_form(list, ids, form)
}

/// A normalized id is its own normalized form.
pub open spec fn forms_are_settled(ids: Map<Seq<char>, Seq<char>>) -> bool {
    forall|id: Seq<char>| #[trigger]
        ids.contains_key(id) ==> lookup(ids, ids[id]) == Some(ids[id])
}

/// Two contacts have no normalized id in common.
pub open spec fn kept_apart(ids: Map<Seq<char>, Seq<char>>) -> spec_fn(SavedView, SavedView) -> bool {
    |a: SavedView, b: SavedView|
        forall|form: Seq<char>|
            !(#[trigger] has_form(a.contact_ids, ids, form) && has_form(b.contact_ids, ids, form))
}

/// No two contacts of a store have a normalized id in common.
pub open spec fn ids_apart(contacts: Seq<SavedView>, ids: Map<Seq<char>, Seq<char>>) -> bool {
    pairwise(contacts, kept_apart(ids))
}

/// All that a contact is saved with is normalized: the ids of the contacts in the store, its own
/// ids, and `merged`, which holds the normalized forms of its own ids and of those of the contacts
/// that share one with it.
pub open spec fn normalized_for_saving(
    stored: Seq<StoredView>,
    id: Seq<char>,
    contact_ids: Seq<Seq<char>>,
    normal_ids: Seq<Seq<char>>,
    merged: Seq<Seq<char>>,
    merged_normal_ids: Seq<Seq<char>>,
    ids: Map<Seq<char>, Seq<char>>,
) -> bool {
    &&& forall|i: int|
        0 <= i < stored.len() ==> lists_forms(
            (#[trigger] stored[i]).normal_ids,
            stored[i].contact.contact_ids,
            ids,
        )
    &&& lists_forms(normal_ids, contact_ids, ids)
    &&& lists_forms(merged, with_overlapping_ids(stored, id, contact_ids, normal_ids), ids)
    &&& lists_forms(merged_normal_ids, merged, ids)
}

/// Where no two contacts of a store have an id in common, none have after a contact was saved, and
/// exactly one contact has the id that was saved.
pub proof fn law_saving_keeps_ids_apart(
    stored: Seq<StoredView>,
    id: Seq<char>,
    request: SaveView,
    contact_ids: Seq<Seq<char>>,
    normal_ids: Seq<Seq<char>>,
    merged: Seq<Seq<char>>,
    merged_normal_ids: Seq<Seq<char>>,
    ids: Map<Seq<char>, Seq<char>>,
)
    requires
        normalized_for_saving(
            stored,
            id,
            contact_ids,
            normal_ids,
            merged,
            merged_normal_ids,
            ids,
        ),
        ids_apart(contacts_in(stored), ids),
    ensures
        ({
            let store = store_with(stored, id, request, merged, merged_normal_ids);
            &&& ids_apart(store, ids)
            &&& exists|i: int|
                0 <= i < store.len() && #[trigger] store[i] == saved_contact(id, request, merged)
                    && forall|j: int|
                    0 <= j < store.len() && (#[trigger] store[j]).id == id ==> j == i
        }),
{
    let keep = stays_beside(id, merged_normal_ids);
    let kept = select(stored, keep);
    let beside = contacts_in(kept);
    let saved = saved_contact(id, request, merged);
    let all = beside.push(saved);
    let store = store_with(stored, id, request, merged, merged_normal_ids);
    let apart = kept_apart(ids);
    lemma_select(stored, keep);
    let stored_apart = |a: StoredView, b: StoredView| apart(a.contact, b.contact);
    assert forall|i: int, j: int| 0 <= i < j < stored.len() implies stored_apart(
        #[trigger] stored[i],
        #[trigger] stored[j],
    ) by {
        assert(contacts_in(stored)[i] == stored[i].contact);
        assert(contacts_in(stored)[j] == stored[j].contact);
    }
    lemma_select_pairs(stored, keep, stored_apart);
    assert forall|i: int| 0 <= i < beside.len() implies (#[trigger] beside[i]).id != id && apart(
        beside[i],
        saved,
    ) by {
        assert(beside[i] == kept[i].contact);
        assert(kept.contains(kept[i]));
        let k = stored.index_of(kept[i]);
        assert(keep(stored[k]));
        let other = stored[k];
        assert forall|form: Seq<char>|
            !(#[trigger] has_form(beside[i].contact_ids, ids, form) && has_form(
                saved.contact_ids,
                ids,
                form,
            )) by {
            if has_form(beside[i].contact_ids, ids, form) && has_form(
                saved.contact_ids,
                ids,
                form,
            ) {
                assert(other.normal_ids.contains(form));
                assert(merged_normal_ids.contains(form));
                let m = other.normal_ids.index_of(form);
                assert(merged_normal_ids.contains(other.normal_ids[m]));
                assert(share_id(other.normal_ids, merged_normal_ids));
            }
        }
    }
    assert(pairwise(all, apart)) by {
        assert forall|i: int, j: int| 0 <= i < j < all.len() implies apart(
            #[trigger] all[i],
            #[trigger] all[j],
        ) by {
            assert(all[i] == beside[i]);
            if j < beside.len() {
                assert(all[j] == beside[j]);
                assert(stored_apart(kept[i], kept[j]));
            } else {
                assert(all[j] == saved);
            }
        }
    }
    assert forall|a: SavedView, b: SavedView| #[trigger] apart(a, b) implies apart(b, a) by {
        assert forall|form: Seq<char>|
            !(#[trigger] has_form(b.contact_ids, ids, form) && has_form(
                a.contact_ids,
                ids,
                form,
            )) by {
            if has_form(a.contact_ids, ids, form) && has_form(b.contact_ids, ids, form) {
                assert(false);
            }
        }
    }
    lemma_sorting_keeps_pairs(all, name_order(), apart);
    let once = |a: SavedView, b: SavedView| !(a.id == id && b.id == id);
    assert(pairwise(all, once)) by {
        assert forall|i: int, j: int| 0 <= i < j < all.len() implies once(
            #[trigger] all[i],
            #[trigger] all[j],
        ) by {
            assert(all[i] == beside[i]);
        }
    }
    lemma_sorting_keeps_pairs(all, name_order(), once);
    assert(all[beside.len() as int] == saved);
    lemma_sorted_contains(all, name_order(), saved);
    let i = store.index_of(saved);
    assert(store[i] == saved);
    assert forall|j: int| 0 <= j < store.len() && (#[trigger] store[j]).id == id implies j
        == i by {
        if j < i {
            assert(once(store[j], store[i]));
        } else if i < j {
            assert(once(store[i], store[j]));
        }
    }
}

proof fn lemma_form_in_either(
    a: Seq<Seq<char>>,
    b: Seq<Seq<char>>,
    ids: Map<Seq<char>, Seq<char>>,
    form: Seq<char>,
)
    ensures
        has_form(a + b, ids, form) <==> has_form(a, ids, form) || has_form(b, ids, form),
{
    let both = a + b;
    if has_form(both, ids, form) {
        let k = choose|k: int|
            0 <= k < both.len() && lookup(ids, #[trigger] both[k]) == Some(form);
        if k < a.len() {
            assert(both[k] == a[k]);
        } else {
            assert(both[k] == b[k - a.len()]);
        }
    }
    if has_form(a, ids, form) {
        let k = choose|k: int| 0 <= k < a.len() && lookup(ids, #[trigger] a[k]) == Some(form);
        assert(both[k] == a[k]);
    }
    if has_form(b, ids, form) {
        let k = choose|k: int| 0 <= k < b.len() && lookup(ids, #[trigger] b[k]) == Some(form);
        assert(both[a.len() + k] == b[k]);
    }
}

/// A contact of the store is taken up into a saved one: it has another id and shares a contact id.
pub open spec fn is_taken_up(
    other: StoredView,
    saved_id: Seq<char>,
    normal_ids: Seq<Seq<char>>,
) -> bool {
    other.contact.id != saved_id && share_id(other.normal_ids, normal_ids)
}

proof fn lemma_forms_to_save(
    stored: Seq<StoredView>,
    id: Seq<char>,
    contact_ids: Seq<Seq<char>>,
    normal_ids: Seq<Seq<char>>,
    ids: Map<Seq<char>, Seq<char>>,
    form: Seq<char>,
)
    ensures
        has_form(with_overlapping_ids(stored, id, contact_ids, normal_ids), ids, form) <==> (
        has_form(contact_ids, ids, form) || exists|i: int|
            0 <= i < stored.len() && is_taken_up(#[trigger] stored[i], id, normal_ids) && has_form(
                stored[i].contact.contact_ids,
                ids,
                form,
            )),
    decreases stored.len(),
{
    if stored.len() > 0 {
        let rest = stored.drop_last();
        let last = stored.len() - 1;
        let other = stored[last];
        assert(other == stored.last());
        lemma_forms_to_save(rest, id, contact_ids, normal_ids, ids, form);
        let before = with_overlapping_ids(rest, id, contact_ids, normal_ids);
        lemma_form_in_either(before, other.contact.contact_ids, ids, form);
        assert(forall|i: int| 0 <= i < rest.len() ==> rest[i] == stored[i]);
        if exists|i: int|
            0 <= i < rest.len() && is_taken_up(#[trigger] rest[i], id, normal_ids) && has_form(
                rest[i].contact.contact_ids,
                ids,
                form,
            ) {
            let i = choose|i: int|
                0 <= i < rest.len() && is_taken_up(#[trigger] rest[i], id, normal_ids) && has_form(
                    rest[i].contact.contact_ids,
                    ids,
                    form,
                );
            assert(is_taken_up(stored[i], id, normal_ids));
        }
        if exists|i: int|
            0 <= i < stored.len() && is_taken_up(#[trigger] stored[i], id, normal_ids) && has_form(
                stored[i].contact.contact_ids,
                ids,
                form,
            ) {
            let i = choose|i: int|
                0 <= i < stored.len() && is_taken_up(#[trigger] stored[i], id, normal_ids)
                    && has_form(stored[i].contact.contact_ids, ids, form);
            if i < last {
                assert(is_taken_up(rest[i], id, normal_ids));
            }
        }
    }
}

/// Saving a contact joins it with the others that share an id with it. Where no two contacts of the
/// store have an id in common, the saved contact holds the normalized forms of its own ids and of
/// theirs, they are gone, and every other contact is kept as it was.
pub proof fn law_saving_joins_contacts(
    stored: Seq<StoredView>,
    id: Seq<char>,
    request: SaveView,
    contact_ids: Seq<Seq<char>>,
    normal_ids: Seq<Seq<char>>,
    merged: Seq<Seq<char>>,
    merged_normal_ids: Seq<Seq<char>>,
    ids: Map<Seq<char>, Seq<char>>,
)
    requires
        normalized_for_saving(
            stored,
            id,
            contact_ids,
            normal_ids,
            merged,
            merged_normal_ids,
            ids,
        ),
        ids_apart(contacts_in(stored), ids),
        forms_are_settled(ids),
    ensures
        ({
            let store = store_with(stored, id, request, merged, merged_normal_ids);
            &&& store.contains(saved_contact(id, request, merged))
            &&& forall|form: Seq<char>| #[trigger]
                merged.contains(form) <==> (normal_ids.contains(form) || exists|i: int|
                    0 <= i < stored.len() && is_taken_up(#[trigger] stored[i], id, normal_ids)
                        && stored[i].normal_ids.contains(form))
            &&& forall|x: SavedView|
                x.id != id ==> (#[trigger] store.contains(x) <==> exists|i: int|
                    0 <= i < stored.len() && (#[trigger] stored[i]).contact == x && !share_id(
                        stored[i].normal_ids,
                        normal_ids,
                    ))
            &&& in_order(store, name_order())
        }),
{
    let store = store_with(stored, id, request, merged, merged_normal_ids);
    law_saving(stored, id, request, merged, merged_normal_ids);
    assert forall|form: Seq<char>| #[trigger]
        merged.contains(form) <==> (normal_ids.contains(form) || exists|i: int|
            0 <= i < stored.len() && is_taken_up(#[trigger] stored[i], id, normal_ids)
                && stored[i].normal_ids.contains(form)) by {
        lemma_forms_to_save(stored, id, contact_ids, normal_ids, ids, form);
        assert forall|i: int| 0 <= i < stored.len() implies (
        #[trigger] stored[i]).normal_ids.contains(form) == has_form(
            stored[i].contact.contact_ids,
            ids,
            form,
        ) by {}
    }
    assert forall|i: int| 0 <= i < stored.len() && (#[trigger] stored[i]).contact.id != id implies (
    share_id(stored[i].normal_ids, merged_normal_ids) <==> share_id(
        stored[i].normal_ids,
        normal_ids,
    )) by {
        lemma_overlap_with_merged(
            stored,
            id,
            contact_ids,
            normal_ids,
            merged,
            merged_normal_ids,
            ids,
            i,
        );
    }
    assert forall|x: SavedView| x.id != id implies (#[trigger] store.contains(x) <==> exists|
        i: int,
    |
        0 <= i < stored.len() && (#[trigger] stored[i]).contact == x && !share_id(
            stored[i].normal_ids,
            normal_ids,
        )) by {
        if store.contains(x) {
            let other = choose|other: StoredView|
                stored.contains(other) && other.contact == x && !share_id(
                    #[trigger] other.normal_ids,
                    merged_normal_ids,
                );
            let i = stored.index_of(other);
            assert(stored[i].contact == x);
        }
        if exists|i: int|
            0 <= i < stored.len() && (#[trigger] stored[i]).contact == x && !share_id(
                stored[i].normal_ids,
                normal_ids,
            ) {
            let i = choose|i: int|
                0 <= i < stored.len() && (#[trigger] stored[i]).contact == x && !share_id(
                    stored[i].normal_ids,
                    normal_ids,
                );
            assert(stored.contains(stored[i]));
        }
    }
}

proof fn lemma_overlap_with_merged(
    stored: Seq<StoredView>,
    id: Seq<char>,
    contact_ids: Seq<Seq<char>>,
    normal_ids: Seq<Seq<char>>,
    merged: Seq<Seq<char>>,
    merged_normal_ids: Seq<Seq<char>>,
    ids: Map<Seq<char>, Seq<char>>,
    i: int,
)
    requires
        normalized_for_saving(
            stored,
            id,
            contact_ids,
            normal_ids,
            merged,
            merged_normal_ids,
            ids,
        ),
        ids_apart(contacts_in(stored), ids),
        forms_are_settled(ids),
        0 <= i < stored.len(),
        stored[i].contact.id != id,
    ensures
        share_id(stored[i].normal_ids, merged_normal_ids) <==> share_id(
            stored[i].normal_ids,
            normal_ids,
        ),
{
    let own = stored[i].normal_ids;
    if share_id(own, normal_ids) {
        let k = choose|k: int| 0 <= k < own.len() && normal_ids.contains(#[trigger] own[k]);
        let form = own[k];
        assert(has_form(contact_ids, ids, form));
        lemma_forms_to_save(stored, id, contact_ids, normal_ids, ids, form);
        assert(merged.contains(form));
        let g = choose|g: int|
            0 <= g < contact_ids.len() && lookup(ids, #[trigger] contact_ids[g]) == Some(form);
        assert(ids.contains_key(contact_ids[g]));
        let m = merged.index_of(form);
        assert(lookup(ids, merged[m]) == Some(form));
        assert(has_form(merged, ids, form));
        assert(merged_normal_ids.contains(own[k]));
    }
    if share_id(own, merged_normal_ids) {
        let k = choose|k: int|
            0 <= k < own.len() && merged_normal_ids.contains(#[trigger] own[k]);
        let form = own[k];
        assert(own.contains(form));
        assert(has_form(merged, ids, form));
        let m = choose|m: int|
            0 <= m < merged.len() && lookup(ids, #[trigger] merged[m]) == Some(form);
        let whole = with_overlapping_ids(stored, id, contact_ids, normal_ids);
        assert(merged.contains(merged[m]));
        assert(has_form(whole, ids, merged[m]));
        let w = choose|w: int|
            0 <= w < whole.len() && lookup(ids, #[trigger] whole[w]) == Some(merged[m]);
        assert(ids.contains_key(whole[w]));
        assert(merged[m] == form);
        lemma_forms_to_save(stored, id, contact_ids, normal_ids, ids, form);
        if has_form(contact_ids, ids, form) {
            assert(normal_ids.contains(own[k]));
        } else {
            let j = choose|j: int|
                0 <= j < stored.len() && is_taken_up(#[trigger] stored[j], id, normal_ids)
                    && has_form(stored[j].contact.contact_ids, ids, form);
            assert(has_form(stored[i].contact.contact_ids, ids, form));
            let apart = kept_apart(ids);
            let contacts = contacts_in(stored);
            assert(contacts[i] == stored[i].contact && contacts[j] == stored[j].contact);
            if i < j {
                assert(apart(contacts[i], contacts[j]));
            } else if j < i {
                assert(apart(contacts[j], contacts[i]));
            }
        }
    }
}

/// Where no two contacts of a store have an id in common, none have after a contact was deleted.
pub proof fn law_deleting_keeps_ids_apart(
    contacts: Seq<SavedView>,
    id: Seq<char>,
    ids: Map<Seq<char>, Seq<char>>,
)
    requires
        ids_apart(contacts, ids),
    ensures
        ids_apart(select(contacts, other_than(id)), ids),
{
    lemma_select_pairs(contacts, other_than(id), kept_apart(ids));
}

/// A saved contact whose name, description or one of whose ids holds the query anywhere, in whatever
/// case, is found by it.
pub proof fn law_saved_are_found(
    contacts: Seq<SavedView>,
    query: Seq<char>,
    wanted: SavedView,
    a: Seq<char>,
    m: Seq<char>,
    b: Seq<char>,
)
    requires
        contacts.contains(wanted),
        lowered(m) == lowered(query),
        wanted.name == a + m + b || wanted.description == a + m + b || wanted.contact_ids.contains(
            a + m + b,
        ),
    ensures
        matching_saved(contacts, Some(query)).contains(wanted),
{
    crate::text::law_lowered_pieces(a + m, b);
    crate::text::law_lowered_pieces(a, m);
    crate::text::law_parts(Seq::empty(), lowered(m), lowered(a), lowered(b));
    if wanted.contact_ids.contains(a + m + b) {
        let i = wanted.contact_ids.index_of(a + m + b);
        assert(holds_text(lowered(wanted.contact_ids[i]), lowered(query)));
    }
    lemma_select(contacts, saved_matches(query));
}

/// Nobody else is found: the name, the description or an id of a saved contact that is found holds
/// the query. The contacts keep their order, and without a query all of them are shown.
pub proof fn law_saved_found_hold_query(contacts: Seq<SavedView>, query: Seq<char>)
    ensures
        matching_saved(contacts, None) == contacts,
        matching_saved(contacts, Some(query)) == contacts.filter(
            |c: SavedView|
                holds_text(lowered(c.name), lowered(query)) || holds_text(
                    lowered(c.description),
                    lowered(query),
                ) || exists|i: int|
                    0 <= i < c.contact_ids.len() && holds_text(
                        lowered(#[trigger] c.contact_ids[i]),
                        lowered(query),
                    ),
        ),
{
    let found = |c: SavedView|
        holds_text(lowered(c.name), lowered(query)) || holds_text(
            lowered(c.description),
            lowered(query),
        ) || exists|i: int|
            0 <= i < c.contact_ids.len() && holds_text(
                lowered(#[trigger] c.contact_ids[i]),
                lowered(query),
            );
    assert(saved_matches(query) =~= found);
    crate::order::law_select(contacts, found);
}

proof fn lemma_avatar_among(
    ids: Seq<Seq<char>>,
    avatars: Map<Seq<char>, Seq<char>>,
    k: int,
)
    requires
        0 <= k <= ids.len(),
        forall|j: int| 0 <= j < k ==> !avatars.contains_key(#[trigger] ids[j]),
        k < ids.len() ==> avatars.contains_key(ids[k]),
    ensures
        avatar_among(ids, avatars) == (if k < ids.len() {
            Some(avatars[ids[k]])
        } else {
            None
        }),
    decreases ids.len(),
{
    if k > 0 {
        let rest = ids.drop_first();
        assert(forall|j: int| 0 <= j < rest.len() ==> rest[j] == ids[j + 1]);
        assert(!avatars.contains_key(ids[0]));
        lemma_avatar_among(rest, avatars, k - 1);
    }
}

/// A saved contact without an avatar is shown with the one of the first of its ids that has one. One
/// with an avatar is shown with its own.
pub proof fn law_shown_avatar(
    contacts: Seq<SavedView>,
    avatars: Map<Seq<char>, Seq<char>>,
    i: int,
    k: int,
)
    requires
        0 <= i < contacts.len(),
        0 <= k < contacts[i].contact_ids.len(),
        avatars.contains_key(contacts[i].contact_ids[k]),
        forall|j: int| 0 <= j < k ==> !avatars.contains_key(#[trigger] contacts[i].contact_ids[j]),
    ensures
        cleaned(contacts[i].avatar) is None ==> with_known_avatars(contacts, avatars)[i].avatar
            == Some(avatars[contacts[i].contact_ids[k]]),
        cleaned(contacts[i].avatar) is Some ==> with_known_avatars(contacts, avatars)[i].avatar
            == contacts[i].avatar,
{
    lemma_avatar_among(contacts[i].contact_ids, avatars, k);
    assert(avatars != Map::<Seq<char>, Seq<char>>::empty());
}

/// A contact is saved under its id with what was asked for, without white space at the ends; a blank
/// avatar is none.
pub proof fn law_saved_contact(
    id: Seq<char>,
    request: SaveView,
    contact_ids: Seq<Seq<char>>,
)
    ensures
        ({
            let saved = saved_contact(id, request, contact_ids);
            &&& saved.id == id
            &&& saved.name == trimmed(request.name)
            &&& saved.description == trimmed(request.description)
            &&& saved.avatar == (match request.avatar {
                Some(avatar) => nonblank(avatar),
                None => None,
            })
            &&& saved.contact_ids == contact_ids
        }),
{
}

/// Two lists of ids overlap exactly where one id stands in both.
pub proof fn law_shared_ids(left: Seq<Seq<char>>, right: Seq<Seq<char>>)
    ensures
        share_id(left, right) <==> exists|id: Seq<char>| #[trigger]
            left.contains(id) && right.contains(id),
        share_id(left, right) == share_id(right, left),
{
    if share_id(left, right) {
        let i = choose|i: int| 0 <= i < left.len() && right.contains(#[trigger] left[i]);
        assert(left.contains(left[i]) && right.contains(left[i]));
        let k = right.index_of(left[i]);
        assert(left.contains(right[k]));
    }
    if exists|id: Seq<char>| #[trigger] left.contains(id) && right.contains(id) {
        let id = choose|id: Seq<char>| #[trigger] left.contains(id) && right.contains(id);
        let i = left.index_of(id);
        assert(right.contains(left[i]));
    }
    if share_id(right, left) {
        let i = choose|i: int| 0 <= i < right.len() && left.contains(#[trigger] right[i]);
        let k = left.index_of(right[i]);
        assert(right.contains(left[k]));
    }
}

/// The ids that a contact is saved with are its own, first, and those of every other contact that
/// shares a normalized id with it.
pub proof fn law_ids_to_save(
    stored: Seq<StoredView>,
    id: Seq<char>,
    contact_ids: Seq<Seq<char>>,
    normal_ids: Seq<Seq<char>>,
    x: Seq<char>,
)
    ensures
        ({
            let merged = with_overlapping_ids(stored, id, contact_ids, normal_ids);
            &&& contact_ids.len() <= merged.len()
            &&& merged.take(contact_ids.len() as int) == contact_ids
            &&& merged.contains(x) <==> (contact_ids.contains(x) || exists|i: int|
                0 <= i < stored.len() && (#[trigger] stored[i]).contact.id != id && share_id(
                    stored[i].normal_ids,
                    normal_ids,
                ) && stored[i].contact.contact_ids.contains(x))
        }),
    decreases stored.len(),
{
    let merged = with_overlapping_ids(stored, id, contact_ids, normal_ids);
    if stored.len() > 0 {
        let rest = stored.drop_last();
        let last = stored.len() - 1;
        let before = with_overlapping_ids(rest, id, contact_ids, normal_ids);
        law_ids_to_save(rest, id, contact_ids, normal_ids, x);
        assert(forall|i: int| 0 <= i < rest.len() ==> rest[i] == stored[i]);
        assert(stored[last] == stored.last());
        assert(merged.take(contact_ids.len() as int) =~= before.take(contact_ids.len() as int));
        if before.contains(x) {
            let k = before.index_of(x);
            assert(merged[k] == x);
            if !contact_ids.contains(x) {
                let i = choose|i: int|
                    0 <= i < rest.len() && (#[trigger] rest[i]).contact.id != id && share_id(
                        rest[i].normal_ids,
                        normal_ids,
                    ) && rest[i].contact.contact_ids.contains(x);
                assert(stored[i].contact.contact_ids.contains(x));
            }
        }
        let own = stored[last].contact.contact_ids;
        if stored[last].contact.id != id && share_id(stored[last].normal_ids, normal_ids) {
            if own.contains(x) {
                let k = own.index_of(x);
                assert(merged[before.len() + k] == x);
            }
            if merged.contains(x) {
                let k = merged.index_of(x);
                if k < before.len() {
                    assert(before[k] == x);
                } else {
                    assert(own[k - before.len()] == x);
                }
            }
        }
        if exists|i: int|
            0 <= i < stored.len() && (#[trigger] stored[i]).contact.id != id && share_id(
                stored[i].normal_ids,
                normal_ids,
            ) && stored[i].contact.contact_ids.contains(x) {
            let i = choose|i: int|
                0 <= i < stored.len() && (#[trigger] stored[i]).contact.id != id && share_id(
                    stored[i].normal_ids,
                    normal_ids,
                ) && stored[i].contact.contact_ids.contains(x);
            if i < last {
                assert(rest[i].contact.contact_ids.contains(x));
            }
        }
    } else {
        assert(merged.take(contact_ids.len() as int) =~= contact_ids);
    }
}

/// Saved contacts stand by their names in lower case.
pub proof fn law_named_before(a: SavedView, b: SavedView)
    ensures
        named_before(a, b) <==> text_less(lowered(a.name), lowered(b.name)),
        lowered(a.name) == lowered(b.name) ==> !named_before(a, b),
{
    law_order_irreflexive(lowered(a.name));
}

/// A saved contact is shown as it is where none of its ids has an avatar.
pub proof fn law_no_avatar_known(
    contacts: Seq<SavedView>,
    avatars: Map<Seq<char>, Seq<char>>,
    i: int,
)
    requires
        0 <= i < contacts.len(),
        forall|j: int|
            0 <= j < contacts[i].contact_ids.len() ==> !avatars.contains_key(
                #[trigger] contacts[i].contact_ids[j],
            ),
    ensures
        with_known_avatars(contacts, avatars)[i].id == contacts[i].id,
        cleaned(contacts[i].avatar) is Some ==> with_known_avatars(contacts, avatars)[i]
            == contacts[i],
        cleaned(contacts[i].avatar) is None ==> cleaned(
            with_known_avatars(contacts, avatars)[i].avatar,
        ) is None,
{
    lemma_avatar_among(contacts[i].contact_ids, avatars, contacts[i].contact_ids.len() as int);
}

/// Deleting a contact keeps the others in their order.
pub proof fn law_deleting_keeps_order(contacts: Seq<SavedView>, id: Seq<char>)
    ensures
        select(contacts, other_than(id)) == contacts.filter(|c: SavedView| c.id != id),
        has_id(contacts, id) <==> contacts.filter(|c: SavedView| c.id == id).len() > 0,
{
    let others = |c: SavedView| c.id != id;
    let own = |c: SavedView| c.id == id;
    assert(other_than(id) =~= others);
    crate::order::law_select(contacts, others);
    if has_id(contacts, id) {
        let k = choose|k: int| 0 <= k < contacts.len() && (#[trigger] contacts[k]).id == id;
        contacts.lemma_filter_contains(own, k);
    }
    let found = contacts.filter(own);
    if found.len() > 0 {
        contacts.lemma_filter_pred(own, 0);
        assert(found.contains(found[0]));
        contacts.lemma_filter_contains_rev(own, found[0]);
        let k = contacts.index_of(found[0]);
        assert(contacts[k].id == id);
    }
}

} // verus!
