//! Maps from texts to values, kept as a list of entries with distinct keys.

use crate::order::{distinct_by, views};
use crate::text::same_text;
use vstd::prelude::*;

verus! {

/// One entry of a map.
#[derive(Debug)]
pub struct TextEntry<V> {
    pub key: String,
    pub value: V,
}

/// A map from texts to values.
#[derive(Debug)]
pub struct TextMap<V: View> {
    entries: Vec<TextEntry<V>>,
}

/// The keys and values of a list of entries.
pub open spec fn entry_list<V: View>(entries: Seq<TextEntry<V>>) -> Seq<(Seq<char>, V::V)> {
    entries.map_values(|e: TextEntry<V>| (e.key@, e.value@))
}

/// The map of a list of entries. A later entry takes the place of an earlier one.
pub open spec fn map_of<W>(list: Seq<(Seq<char>, W)>) -> Map<Seq<char>, W>
    decreases list.len(),
{
    if list.len() == 0 {
        Map::empty()
    } else {
        map_of(list.drop_last()).insert(list.last().0, list.last().1)
    }
}

/// No key stands in two entries.
pub open spec fn distinct_keys<W>(list: Seq<(Seq<char>, W)>) -> bool {
    forall|i: int, j: int| 0 <= i < j < list.len() ==> list[i].0 != list[j].0
}

/// What a map holds under a key.
pub open spec fn lookup<W>(map: Map<Seq<char>, W>, key: Seq<char>) -> Option<W> {
    if map.contains_key(key) {
        Some(map[key])
    } else {
        None
    }
}

pub open spec fn values_of<W>(list: Seq<(Seq<char>, W)>) -> Seq<W> {
    list.map_values(|entry: (Seq<char>, W)| entry.1)
}

/// The values are those of the map, one for each key.
pub open spec fn lists_values<W>(values: Seq<W>, map: Map<Seq<char>, W>) -> bool {
    exists|list: Seq<(Seq<char>, W)>| #[trigger]
        distinct_keys(list) && map_of(list) == map && values == values_of(list)
}

/// A map of distinct entries holds each of them, and nothing else.
pub proof fn lemma_map_of<W>(list: Seq<(Seq<char>, W)>)
    requires
        distinct_keys(list),
    ensures
        forall|i: int|
            0 <= i < list.len() ==> #[trigger] map_of(list).contains_key(list[i].0) && map_of(
                list,
            )[list[i].0] == list[i].1,
        forall|k: Seq<char>| #[trigger]
            map_of(list).contains_key(k) ==> exists|i: int| 0 <= i < list.len() && list[i].0 == k,
    decreases list.len(),
{
    if list.len() > 0 {
        let rest = list.drop_last();
        lemma_map_of(rest);
        assert forall|i: int| 0 <= i < list.len() implies #[trigger] map_of(list).contains_key(
            list[i].0,
        ) && map_of(list)[list[i].0] == list[i].1 by {
            if i < list.len() - 1 {
                assert(rest[i] == list[i]);
                assert(map_of(rest).contains_key(rest[i].0));
            }
        }
        assert forall|k: Seq<char>| #[trigger] map_of(list).contains_key(k) implies exists|i: int|
            0 <= i < list.len() && list[i].0 == k by {
            if k == list.last().0 {
                assert(list[list.len() - 1].0 == k);
            } else {
                assert(map_of(rest).contains_key(k));
                let i = choose|i: int| 0 <= i < rest.len() && rest[i].0 == k;
                assert(list[i].0 == k);
            }
        }
    }
}

/// Two lists of distinct entries with the same entries make the same map.
proof fn lemma_same_map<W>(list: Seq<(Seq<char>, W)>, map: Map<Seq<char>, W>)
    requires
        distinct_keys(list),
        forall|i: int|
            0 <= i < list.len() ==> map.contains_key(#[trigger] list[i].0) && map[list[i].0]
                == list[i].1,
        forall|k: Seq<char>| #[trigger]
            map.contains_key(k) ==> exists|i: int| 0 <= i < list.len() && list[i].0 == k,
    ensures
        map_of(list) == map,
{
    lemma_map_of(list);
    assert forall|k: Seq<char>| map_of(list).contains_key(k) == map.contains_key(k) by {
        if map_of(list).contains_key(k) {
            let i = choose|i: int| 0 <= i < list.len() && list[i].0 == k;
            assert(map.contains_key(list[i].0));
        }
        if map.contains_key(k) {
            let i = choose|i: int| 0 <= i < list.len() && list[i].0 == k;
            assert(map_of(list).contains_key(list[i].0));
        }
    }
    assert forall|k: Seq<char>| map_of(list).contains_key(k) implies map_of(list)[k] == map[k] by {
        let i = choose|i: int| 0 <= i < list.len() && list[i].0 == k;
        assert(map_of(list).contains_key(list[i].0));
        assert(map.contains_key(list[i].0));
    }
    assert(map_of(list) =~= map);
}

impl<V: View> View for TextMap<V> {
    type V = Map<Seq<char>, V::V>;

    closed spec fn view(&self) -> Map<Seq<char>, V::V> {
        map_of(entry_list(self.entries@))
    }
}

impl<V: View> TextMap<V> {
    #[verifier::type_invariant]
    spec fn keys_are_distinct(self) -> bool {
        distinct_keys(entry_list(self.entries@))
    }

    /// A map without entries.
    pub fn new() -> (r: Self)
        ensures
            r@ == Map::<Seq<char>, V::V>::empty(),
    {
        TextMap { entries: Vec::new() }
    }

    /// The index of the entry with a key.
    fn position(&self, key: &str) -> (r: Option<usize>)
        ensures
            match r {
                Some(i) => i < self.entries@.len() && self.entries@[i as int].key@ == key@
                    && self@.contains_key(key@) && self@[key@] == self.entries@[i as int].value@,
                None => !self@.contains_key(key@) && forall|j: int|
                    0 <= j < self.entries@.len() ==> (#[trigger] self.entries@[j]).key@ != key@,
            },
    {
        proof {
            use_type_invariant(self);
            lemma_map_of(entry_list(self.entries@));
        }
        let ghost list = entry_list(self.entries@);
        for i in 0..self.entries.len()
            invariant
                list == entry_list(self.entries@),
                distinct_keys(list),
                forall|j: int| 0 <= j < i ==> (#[trigger] self.entries@[j]).key@ != key@,
        {
            if same_text(self.entries[i].key.as_str(), key) {
                proof {
                    lemma_map_of(list);
                    assert(list[i as int].0 == key@);
                    assert(map_of(list).contains_key(list[i as int].0));
                }
                return Some(i);
            }
        }
        proof {
            if self@.contains_key(key@) {
                let i = choose|i: int| 0 <= i < list.len() && list[i].0 == key@;
                assert(self.entries@[i].key@ == key@);
            }
        }
        None
    }

    /// The value under a key.
    pub fn get(&self, key: &str) -> (r: Option<&V>)
        ensures
            match r {
                Some(value) => self@.contains_key(key@) && self@[key@] == value@,
                None => !self@.contains_key(key@),
            },
    {
        match self.position(key) {
            Some(i) => Some(&self.entries[i].value),
            None => None,
        }
    }

    /// Whether the map has no entry.
    pub fn is_empty(&self) -> (r: bool)
        ensures
            r == (self@ == Map::<Seq<char>, V::V>::empty()),
    {
        proof {
            use_type_invariant(self);
            let list = entry_list(self.entries@);
            lemma_map_of(list);
            if list.len() > 0 {
                assert(map_of(list).contains_key(list[0].0));
            } else {
                assert(self@ =~= Map::<Seq<char>, V::V>::empty());
            }
        }
        self.entries.len() == 0
    }

    /// The number of entries.
    pub fn len(&self) -> (r: usize)
        ensures
            r == self@.dom().len(),
            self@.dom().finite(),
    {
        proof {
            use_type_invariant(self);
            lemma_map_size(entry_list(self.entries@));
        }
        self.entries.len()
    }

    /// Puts a value under a key, in place of one that stands there.
    pub fn insert(&mut self, key: String, value: V)
        ensures
            final(self)@ == old(self)@.insert(key@, value@),
    {
        let _replaced = self.take(key.as_str());
        proof {
            use_type_invariant(&*self);
            lemma_map_of(entry_list(self.entries@));
        }
        let mut entries: Vec<TextEntry<V>> = Vec::new();
        std::mem::swap(&mut entries, &mut self.entries);
        let ghost before = entry_list(entries@);
        let ghost last = (key@, value@);
        entries.push(TextEntry { key, value });
        proof {
            let after = entry_list(entries@);
            assert(after =~= before.push(last));
            assert(after.drop_last() =~= before);
            assert forall|i: int, j: int| 0 <= i < j < after.len() implies after[i].0
                != after[j].0 by {
                if j == after.len() - 1 {
                    assert(after[i] == before[i]);
                    assert(map_of(before).contains_key(before[i].0));
                }
            }
            assert(map_of(after) =~= old(self)@.insert(last.0, last.1));
        }
        self.entries = entries;
    }

    /// Takes the value under a key out of the map.
    pub fn take(&mut self, key: &str) -> (r: Option<V>)
        ensures
            final(self)@ == old(self)@.remove(key@),
            match r {
                Some(value) => old(self)@.contains_key(key@) && old(self)@[key@] == value@,
                None => !old(self)@.contains_key(key@),
            },
    {
        match self.position(key) {
            None => {
                assert(self@.remove(key@) =~= self@);
                None
            },
            Some(i) => {
                proof {
                    use_type_invariant(&*self);
                }
                let mut entries: Vec<TextEntry<V>> = Vec::new();
                std::mem::swap(&mut entries, &mut self.entries);
                let ghost before = entry_list(entries@);
                let entry = entries.swap_remove(i);
                proof {
                    let after = entry_list(entries@);
                    let n = before.len();
                    assert forall|j: int| 0 <= j < after.len() implies #[trigger] after[j] == (if j
                        == i {
                        before[n - 1]
                    } else {
                        before[j]
                    }) by {}
                    assert(distinct_keys(after));
                    let wanted = map_of(before).remove(key@);
                    lemma_map_of(before);
                    assert forall|j: int| 0 <= j < after.len() implies wanted.contains_key(
                        #[trigger] after[j].0,
                    ) && wanted[after[j].0] == after[j].1 by {
                        let k = if j == i {
                            n - 1
                        } else {
                            j
                        };
                        assert(map_of(before).contains_key(before[k].0));
                        assert(before[i as int].0 == key@);
                    }
                    assert forall|k: Seq<char>| #[trigger] wanted.contains_key(k) implies exists|
                        j: int,
                    |
                        0 <= j < after.len() && after[j].0 == k by {
                        assert(map_of(before).contains_key(k));
                        let m = choose|m: int| 0 <= m < before.len() && before[m].0 == k;
                        let j = if m == n - 1 {
                            i as int
                        } else {
                            m
                        };
                        assert(after[j].0 == k);
                    }
                    lemma_same_map(after, wanted);
                }
                self.entries = entries;
                Some(entry.value)
            },
        }
    }

    /// The entries of the map.
    pub fn into_entries(self) -> (r: Vec<TextEntry<V>>)
        ensures
            distinct_keys(entry_list(r@)),
            map_of(entry_list(r@)) == self@,
    {
        proof {
            use_type_invariant(&self);
        }
        self.entries
    }

    /// The values of the map, in no particular order.
    pub fn into_values(self) -> (r: Vec<V>)
        ensures
            lists_values(views(r@), self@),
    {
        let ghost map = self@;
        let entries = self.into_entries();
        let ghost list = entry_list(entries@);
        let ghost all = entries@;
        let mut out: Vec<V> = Vec::new();
        for entry in it: entries
            invariant
                it.seq() == all,
                list == entry_list(all),
                views(out@) == values_of(list.take(it.index())),
        {
            let ghost before = views(out@);
            let ghost value = entry.value@;
            assert(list[it.index()].1 == value);
            out.push(entry.value);
            assert(views(out@) =~= before.push(value));
            assert(values_of(list.take(it.index() + 1)) =~= values_of(
                list.take(it.index()),
            ).push(value));
        }
        assert(list.take(list.len() as int) =~= list);
        assert(distinct_keys(list) && map_of(list) == map && views(out@) == values_of(list));
        out
    }

    /// Lends the entries of the map.
    pub fn entries(&self) -> (r: &Vec<TextEntry<V>>)
        ensures
            distinct_keys(entry_list(r@)),
            map_of(entry_list(r@)) == self@,
    {
        proof {
            use_type_invariant(self);
        }
        &self.entries
    }
}

/// A map of distinct entries has as many keys as there are entries.
pub proof fn lemma_map_size<W>(list: Seq<(Seq<char>, W)>)
    requires
        distinct_keys(list),
    ensures
        map_of(list).dom().finite(),
        map_of(list).dom().len() == list.len(),
    decreases list.len(),
{
    if list.len() > 0 {
        let rest = list.drop_last();
        lemma_map_size(rest);
        lemma_map_of(rest);
        assert(!map_of(rest).contains_key(list.last().0)) by {
            if map_of(rest).contains_key(list.last().0) {
                let i = choose|i: int| 0 <= i < rest.len() && rest[i].0 == list.last().0;
                assert(list[i].0 == list[list.len() - 1].0);
            }
        }
        assert(map_of(list).dom() =~= map_of(rest).dom().insert(list.last().0));
    } else {
        assert(map_of(list).dom() =~= Set::empty());
    }
}

/// A map after another was merged into it, key by key. Where `merge` gives nothing, the key is left
/// as it was.
pub open spec fn merged_map<A, B>(
    old_map: Map<Seq<char>, A>,
    incoming: Map<Seq<char>, B>,
    merge: spec_fn(Seq<char>, Option<A>, B) -> Option<A>,
) -> Map<Seq<char>, A> {
    Map::new(
        |k: Seq<char>|
            old_map.contains_key(k) || (incoming.contains_key(k) && merge(
                k,
                lookup(old_map, k),
                incoming[k],
            ) is Some),
        |k: Seq<char>|
            if incoming.contains_key(k) && merge(k, lookup(old_map, k), incoming[k]) is Some {
                merge(k, lookup(old_map, k), incoming[k])->0
            } else {
                old_map[k]
            },
    )
}

/// Merging an empty map changes nothing.
pub proof fn lemma_merged_none<A, B>(
    old_map: Map<Seq<char>, A>,
    merge: spec_fn(Seq<char>, Option<A>, B) -> Option<A>,
)
    ensures
        merged_map(old_map, map_of(Seq::<(Seq<char>, B)>::empty()), merge) == old_map,
{
    assert(merged_map(old_map, map_of(Seq::<(Seq<char>, B)>::empty()), merge) =~= old_map);
}

/// Merging one more entry changes the map at one key, where nothing was merged before.
pub proof fn lemma_merged_step<A, B>(
    old_map: Map<Seq<char>, A>,
    list: Seq<(Seq<char>, B)>,
    i: int,
    merge: spec_fn(Seq<char>, Option<A>, B) -> Option<A>,
)
    requires
        distinct_keys(list),
        0 <= i < list.len(),
    ensures
        lookup(merged_map(old_map, map_of(list.take(i)), merge), list[i].0) == lookup(
            old_map,
            list[i].0,
        ),
        merged_map(old_map, map_of(list.take(i + 1)), merge) == (match merge(
            list[i].0,
            lookup(old_map, list[i].0),
            list[i].1,
        ) {
            Some(value) => merged_map(old_map, map_of(list.take(i)), merge).insert(
                list[i].0,
                value,
            ),
            None => merged_map(old_map, map_of(list.take(i)), merge),
        }),
{
    let before = list.take(i);
    let after = list.take(i + 1);
    assert(after.drop_last() =~= before);
    assert(after.last() == list[i]);
    assert(distinct_keys(before)) by {
        assert forall|a: int, b: int| 0 <= a < b < before.len() implies before[a].0
            != before[b].0 by {
            assert(list[a].0 != list[b].0);
        }
    }
    lemma_map_of(before);
    assert(!map_of(before).contains_key(list[i].0)) by {
        if map_of(before).contains_key(list[i].0) {
            let k = choose|k: int| 0 <= k < before.len() && before[k].0 == list[i].0;
            assert(list[k].0 == list[i].0);
        }
    }
    let wanted = match merge(list[i].0, lookup(old_map, list[i].0), list[i].1) {
        Some(value) => merged_map(old_map, map_of(before), merge).insert(list[i].0, value),
        None => merged_map(old_map, map_of(before), merge),
    };
    assert(merged_map(old_map, map_of(after), merge) =~= wanted);
}

/// Taking one entry out of a list takes its key out of the map.
proof fn lemma_entry_removed<W>(list: Seq<(Seq<char>, W)>, j: int)
    requires
        distinct_keys(list),
        0 <= j < list.len(),
    ensures
        distinct_keys(list.remove(j)),
        map_of(list.remove(j)) == map_of(list).remove(list[j].0),
{
    let rest = list.remove(j);
    assert forall|a: int| 0 <= a < rest.len() implies rest[a] == (if a < j {
        list[a]
    } else {
        list[a + 1]
    }) by {}
    assert(distinct_keys(rest));
    lemma_map_of(list);
    let wanted = map_of(list).remove(list[j].0);
    assert forall|a: int| 0 <= a < rest.len() implies wanted.contains_key(#[trigger] rest[a].0)
        && wanted[rest[a].0] == rest[a].1 by {
        let b = if a < j {
            a
        } else {
            a + 1
        };
        assert(map_of(list).contains_key(list[b].0));
        assert(list[b].0 != list[j].0);
    }
    assert forall|k: Seq<char>| #[trigger] wanted.contains_key(k) implies exists|a: int|
        0 <= a < rest.len() && rest[a].0 == k by {
        assert(map_of(list).contains_key(k));
        let b = choose|b: int| 0 <= b < list.len() && list[b].0 == k;
        let a = if b < j {
            b
        } else {
            b - 1
        };
        assert(rest[a].0 == k);
    }
    lemma_same_map(rest, wanted);
}

proof fn lemma_same_entries<W>(a: Seq<(Seq<char>, W)>, b: Seq<(Seq<char>, W)>)
    requires
        distinct_keys(a),
        distinct_keys(b),
        map_of(a) == map_of(b),
    ensures
        values_of(a).to_multiset() == values_of(b).to_multiset(),
    decreases a.len(),
{
    broadcast use vstd::seq_lib::group_to_multiset_ensures;

    lemma_map_of(a);
    lemma_map_of(b);
    if a.len() == 0 {
        if b.len() > 0 {
            assert(map_of(b).contains_key(b[0].0));
        }
        assert(values_of(a) =~= values_of(b));
    } else {
        let n = a.len() - 1;
        let key = a[n].0;
        assert(map_of(a).contains_key(a[n].0));
        assert(map_of(b).contains_key(key));
        let j = choose|j: int| 0 <= j < b.len() && b[j].0 == key;
        assert(map_of(b).contains_key(b[j].0));
        assert(b[j].1 == a[n].1);
        lemma_entry_removed(a, n);
        lemma_entry_removed(b, j);
        assert(a.remove(n) =~= a.drop_last());
        lemma_same_entries(a.remove(n), b.remove(j));
        assert(values_of(a) =~= values_of(a.remove(n)).push(a[n].1));
        assert(values_of(b.remove(j)) =~= values_of(b).remove(j));
        assert(values_of(b)[j] == a[n].1);
        assert(values_of(b).contains(a[n].1));
        assert(values_of(b).remove(j).to_multiset() =~= values_of(b).to_multiset().remove(
            a[n].1,
        ));
        assert(values_of(b).to_multiset().contains(a[n].1));
        assert(values_of(b).to_multiset() =~= values_of(b).to_multiset().remove(a[n].1).insert(
            a[n].1,
        ));
    }
}

/// In whatever order the values of a map are listed, they are the same values.
pub proof fn law_values_of_map<W>(a: Seq<W>, b: Seq<W>, map: Map<Seq<char>, W>)
    requires
        lists_values(a, map),
        lists_values(b, map),
    ensures
        a.to_multiset() == b.to_multiset(),
{
    let la = choose|list: Seq<(Seq<char>, W)>| #[trigger]
        distinct_keys(list) && map_of(list) == map && a == values_of(list);
    let lb = choose|list: Seq<(Seq<char>, W)>| #[trigger]
        distinct_keys(list) && map_of(list) == map && b == values_of(list);
    lemma_same_entries(la, lb);
}

/// Where the key of each value can be told from the value, no two of the listed values have the
/// same one.
pub proof fn lemma_values_are_distinct<W>(
    values: Seq<W>,
    map: Map<Seq<char>, W>,
    key: spec_fn(W) -> Seq<char>,
)
    requires
        lists_values(values, map),
        forall|k: Seq<char>| #[trigger] map.contains_key(k) ==> key(map[k]) == k,
    ensures
        distinct_by(values, key),
{
    let list = choose|list: Seq<(Seq<char>, W)>| #[trigger]
        distinct_keys(list) && map_of(list) == map && values == values_of(list);
    lemma_map_of(list);
    assert forall|i: int, j: int| 0 <= i < j < values.len() implies key(#[trigger] values[i])
        != key(#[trigger] values[j]) by {
        assert(map.contains_key(list[i].0) && map.contains_key(list[j].0));
        assert(values[i] == list[i].1 && values[j] == list[j].1);
    }
}

/// Merging a map into another asks at each key what becomes of what stands there. It touches no key
/// that is not merged, loses none, and keeps what stood where the answer is nothing.
pub proof fn law_merging_maps<A, B>(
    old_map: Map<Seq<char>, A>,
    incoming: Map<Seq<char>, B>,
    merge: spec_fn(Seq<char>, Option<A>, B) -> Option<A>,
    key: Seq<char>,
)
    ensures
        ({
            let after = merged_map(old_map, incoming, merge);
            let stood = if old_map.contains_key(key) {
                Some(old_map[key])
            } else {
                None
            };
            &&& after.contains_key(key) <==> old_map.contains_key(key) || (incoming.contains_key(
                key,
            ) && merge(key, stood, incoming[key]) is Some)
            &&& incoming.contains_key(key) && merge(key, stood, incoming[key]) is Some ==> Some(
                after[key],
            ) == merge(key, stood, incoming[key])
            &&& incoming.contains_key(key) && merge(key, stood, incoming[key]) is None
                && old_map.contains_key(key) ==> after[key] == old_map[key]
            &&& !incoming.contains_key(key) && old_map.contains_key(key) ==> after[key]
                == old_map[key]
        }),
{
}

/// Looking up a key gives what stands under it, and nothing where nothing stands.
pub proof fn law_lookup<W>(map: Map<Seq<char>, W>, key: Seq<char>, value: W, other: Seq<char>)
    ensures
        lookup(map.insert(key, value), key) == Some(value),
        other != key ==> lookup(map.insert(key, value), other) == lookup(map, other),
        lookup(map.remove(key), key) is None,
        lookup(Map::<Seq<char>, W>::empty(), key) is None,
{
}

} // verus!
