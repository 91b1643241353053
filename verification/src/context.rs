//! The context of a candidate: the items of the highest entropy, none of them twice.
//!
//! How telling a text is, its entropy score, is a floating-point function of two counts. The counts
//! are taken here; the score stands in each item as a bit pattern.

use crate::models::{Candidate, CandidateView, ContactContext, ContextView};
use crate::order::{
    distinct_by, law_sorting_keeps_items, law_sorting_orders, lemma_sorted_contains,
    lemma_sorting_keeps_distinct, sorted_by, stable_sort, views, weak_order, Order,
};
use crate::score::{not_a_number, score_is_less, score_less};
use crate::text::{
    byte_len, bytes_in, chars_of, clean, lowered, nonblank, same_text, split_words, texts, to_lower,
    words,
};
use vstd::prelude::*;
use vstd::string::*;

verus! {

/// Whether `char::is_alphanumeric` holds of a character.
pub uninterp spec fn alphanumeric(c: char) -> bool;

/// `char::is_alphanumeric`: the character is a letter or a number by the tables of Unicode, which
/// are not written out here. The result depends on the character alone.
#[verifier::external_body]
fn char_is_alphanumeric(c: char) -> (r: bool)
    ensures
        r == alphanumeric(c),
{
    c.is_alphanumeric()
}

/// The hash that a fresh `DefaultHasher` gives a text.
pub uninterp spec fn fingerprint(text: Seq<char>) -> u64;

/// `BuildHasher::hash_one` with the default `DefaultHasher`, which is not seeded. The result depends
/// on the text alone; which number comes out is not stated.
#[verifier::external_body]
fn text_fingerprint(text: &str) -> (r: u64)
    ensures
        r == fingerprint(text@),
{
    std::hash::BuildHasher::hash_one(
        &std::hash::BuildHasherDefault::<std::collections::hash_map::DefaultHasher>::default(),
        text,
    )
}

/// A word without what stands before its first and behind its last letter or number.
pub open spec fn bare_start(word: Seq<char>) -> Seq<char>
    decreases word.len(),
{
    if word.len() > 0 && !alphanumeric(word[0]) {
        bare_start(word.drop_first())
    } else {
        word
    }
}

pub open spec fn bare_end(word: Seq<char>) -> Seq<char>
    decreases word.len(),
{
    if word.len() > 0 && !alphanumeric(word.last()) {
        bare_end(word.drop_last())
    } else {
        word
    }
}

pub open spec fn bare_word(word: Seq<char>) -> Seq<char> {
    lowered(bare_end(bare_start(word)))
}

/// The bare words of more than one byte.
pub open spec fn tokens_of(all: Seq<Seq<char>>) -> Seq<Seq<char>>
    decreases all.len(),
{
    if all.len() == 0 {
        Seq::empty()
    } else {
        let before = tokens_of(all.drop_last());
        if byte_len(bare_word(all.last())) > 1 {
            before.push(bare_word(all.last()))
        } else {
            before
        }
    }
}

/// The words of a text that tell something.
pub open spec fn entropy_tokens(text: Seq<char>) -> Seq<Seq<char>> {
    tokens_of(words(text))
}

/// What the entropy score of a text is made of.
#[derive(Debug, Clone, Copy, PartialEq, Eq, Structural)]
pub struct EntropyCounts {
    /// How many different words there are.
    pub unique: usize,
    /// How many words there are.
    pub total: usize,
}

proof fn lemma_bare_start_at(word: Seq<char>, k: int)
    requires
        0 <= k <= word.len(),
        forall|i: int| 0 <= i < k ==> !alphanumeric(word[i]),
        k < word.len() ==> alphanumeric(word[k]),
    ensures
        bare_start(word) == word.skip(k),
    decreases k,
{
    if k > 0 {
        lemma_bare_start_at(word.drop_first(), k - 1);
        assert(word.drop_first().skip(k - 1) =~= word.skip(k));
    } else {
        assert(word.skip(0) =~= word);
    }
}

proof fn lemma_bare_end_at(word: Seq<char>, k: int)
    requires
        0 <= k <= word.len(),
        forall|i: int| k <= i < word.len() ==> !alphanumeric(word[i]),
        k > 0 ==> alphanumeric(word[k - 1]),
    ensures
        bare_end(word) == word.take(k),
    decreases word.len() - k,
{
    if k < word.len() {
        lemma_bare_end_at(word.drop_last(), k);
        assert(word.drop_last().take(k) =~= word.take(k));
    } else {
        assert(word.take(k) =~= word);
    }
}

/// A word in lower case without what is neither letter nor number at its ends.
fn strip_word(word: &str) -> (r: String)
    ensures
        r@ == bare_word(word@),
{
    let chars = chars_of(word);
    let n = chars.len();
    let mut start: usize = 0;
    while start < n && !char_is_alphanumeric(chars[start])
        invariant
            start <= n,
            n == chars@.len(),
            forall|i: int| 0 <= i < start ==> !alphanumeric(chars@[i]),
        decreases n - start,
    {
        start = start + 1;
    }
    let mut end: usize = n;
    while end > start && !char_is_alphanumeric(chars[end - 1])
        invariant
            start <= end <= n,
            n == chars@.len(),
            forall|i: int| end <= i < n ==> !alphanumeric(chars@[i]),
        decreases end,
    {
        end = end - 1;
    }
    proof {
        lemma_bare_start_at(word@, start as int);
        let tail = word@.skip(start as int);
        lemma_bare_end_at(tail, end - start);
        assert(tail.take(end - start) =~= word@.subrange(start as int, end as int));
    }
    to_lower(word.substring_char(start, end))
}

/// Counts the words of a text that tell something, and the different ones among them.
pub fn entropy_counts(text: &str) -> (r: EntropyCounts)
    ensures
        r.total == entropy_tokens(text@).len(),
        r.unique == entropy_tokens(text@).to_set().len(),
{
    let all = split_words(text);
    let ghost list = texts(all@);
    let mut seen: Vec<String> = Vec::new();
    let mut total: usize = 0;
    proof {
        assert(texts(seen@) =~= Seq::<Seq<char>>::empty());
        assert(texts(seen@).to_set() =~= tokens_of(list.take(0)).to_set());
    }
    for i in 0..all.len()
        invariant
            list == texts(all@),
            total <= i,
            total == tokens_of(list.take(i as int)).len(),
            texts(seen@).no_duplicates(),
            texts(seen@).to_set() == tokens_of(list.take(i as int)).to_set(),
    {
        let ghost before = tokens_of(list.take(i as int));
        assert(list.take(i + 1).drop_last() =~= list.take(i as int));
        assert(list.take(i + 1).last() == all@[i as int]@);
        let word = strip_word(all[i].as_str());
        if bytes_in(word.as_str()) > 1 {
            total = total + 1;
            let ghost token = word@;
            let ghost known_words = texts(seen@);
            let mut known = false;
            for k in 0..seen.len()
                invariant
                    token == word@,
                    known_words == texts(seen@),
                    known == exists|j: int| 0 <= j < k && #[trigger] known_words[j] == token,
            {
                assert(known_words[k as int] == seen@[k as int]@);
                if same_text(seen[k].as_str(), word.as_str()) {
                    known = true;
                }
            }
            if !known {
                seen.push(word);
                assert(texts(seen@) =~= known_words.push(token));
            }
            proof {
                let after = before.push(token);
                assert(known_words.len() == seen@.len() || known_words.len() + 1 == seen@.len());
                assert(after.to_set() =~= before.to_set().insert(token)) by {
                    assert forall|x: Seq<char>| after.contains(x) == (before.contains(x) || x
                        == token) by {
                        if before.contains(x) {
                            let j = before.index_of(x);
                            assert(after[j] == x);
                        }
                        if x == token {
                            assert(after[before.len() as int] == x);
                        }
                    }
                }
                if known {
                    assert(known_words.contains(token));
                    assert(known_words.to_set().contains(token));
                    assert(after.to_set() =~= before.to_set());
                } else {
                    let grown = known_words.push(token);
                    assert(grown.to_set() =~= known_words.to_set().insert(token)) by {
                        assert forall|x: Seq<char>| grown.contains(x) == (known_words.contains(x)
                            || x == token) by {
                            if known_words.contains(x) {
                                let j = known_words.index_of(x);
                                assert(grown[j] == x);
                            }
                            if x == token {
                                assert(grown[known_words.len() as int] == x);
                            }
                        }
                    }
                }
            }
        }
    }
    assert(list.take(list.len() as int) =~= list);
    proof {
        texts(seen@).unique_seq_to_set();
    }
    EntropyCounts { unique: seen.len(), total }
}

/// One optional time comes before another. No time comes before any time.
pub open spec fn earlier(a: Option<i128>, b: Option<i128>) -> bool {
    match (a, b) {
        (Some(a), Some(b)) => a < b,
        (None, Some(_)) => true,
        (_, None) => false,
    }
}

pub fn is_earlier(a: Option<i128>, b: Option<i128>) -> (r: bool)
    ensures
        r == earlier(a, b),
{
    match (a, b) {
        (Some(a), Some(b)) => a < b,
        (None, Some(_)) => true,
        (_, None) => false,
    }
}

/// Context is ordered by entropy, the highest first, and by time, the latest first.
pub open spec fn more_telling(a: ContextView, b: ContextView) -> bool {
    score_less(b.entropy, a.entropy) || (!score_less(a.entropy, b.entropy) && earlier(
        b.timestamp_ms,
        a.timestamp_ms,
    ))
}

pub struct ByEntropy;

impl Order<ContactContext> for ByEntropy {
    open spec fn precedes(a: ContextView, b: ContextView) -> bool {
        more_telling(a, b)
    }

    fn is_before(a: &ContactContext, b: &ContactContext) -> (r: bool) {
        score_is_less(b.entropy, a.entropy) || (!score_is_less(a.entropy, b.entropy) && is_earlier(
            b.timestamp_ms,
            a.timestamp_ms,
        ))
    }
}

pub open spec fn entropy_order() -> spec_fn(ContextView, ContextView) -> bool {
    |a: ContextView, b: ContextView| <ByEntropy as Order<ContactContext>>::precedes(a, b)
}

/// The first `count` items of a list, or all of them where there are fewer.
pub open spec fn first_items<A>(s: Seq<A>, count: int) -> Seq<A> {
    if s.len() > count {
        s.take(count)
    } else {
        s
    }
}

/// An item has the fingerprint of a text.
pub open spec fn has_fingerprint(context: Seq<ContextView>, print: u64) -> bool {
    exists|i: int| 0 <= i < context.len() && fingerprint((#[trigger] context[i]).text) == print
}

/// The most telling items of a context.
pub open spec fn most_telling(context: Seq<ContextView>, limit: int) -> Seq<ContextView> {
    first_items(sorted_by(context, entropy_order()), limit)
}

/// A context after an item was put to it. A blank item changes nothing, nor does one whose text has
/// the fingerprint of one that is there.
pub open spec fn with_item(context: Seq<ContextView>, item: ContextView, limit: int) -> Seq<
    ContextView,
> {
    if nonblank(item.text) is None || has_fingerprint(context, fingerprint(item.text)) {
        context
    } else {
        most_telling(context.push(item), limit)
    }
}

/// A context after several items were put to it, one after the other.
pub open spec fn with_items(
    context: Seq<ContextView>,
    items: Seq<ContextView>,
    limit: int,
) -> Seq<ContextView>
    decreases items.len(),
{
    if items.len() == 0 {
        context
    } else {
        with_item(with_items(context, items.drop_last(), limit), items.last(), limit)
    }
}

/// Keeps the most telling items of a context.
pub fn sort_context(context: &mut Vec<ContactContext>, limit: usize)
    ensures
        views(final(context)@) == most_telling(views(old(context)@), limit as int),
{
    let mut items: Vec<ContactContext> = Vec::new();
    std::mem::swap(&mut items, context);
    let mut sorted = stable_sort::<ContactContext, ByEntropy>(items);
    let ghost all = views(sorted@);
    sorted.truncate(limit);
    assert(views(sorted@) =~= first_items(all, limit as int));
    *context = sorted;
}

/// Puts an item to the context of a candidate.
pub fn push_context(candidate: &mut Candidate, context: ContactContext, limit: usize)
    ensures
        final(candidate)@ == (CandidateView {
            context: with_item(old(candidate)@.context, context@, limit as int),
            ..old(candidate)@
        }),
{
    if clean(context.text.as_str()).is_none() {
        return ;
    }
    let print = text_fingerprint(context.text.as_str());
    let ghost before = views(candidate.context@);
    for i in 0..candidate.context.len()
        invariant
            before == views(candidate.context@),
            *candidate == *old(candidate),
            print == fingerprint(context@.text),
            forall|j: int| 0 <= j < i ==> fingerprint((#[trigger] before[j]).text) != print,
    {
        assert(before[i as int] == candidate.context@[i as int]@);
        if text_fingerprint(candidate.context[i].text.as_str()) == print {
            return ;
        }
    }
    let ghost item = context@;
    candidate.context.push(context);
    assert(views(candidate.context@) =~= before.push(item));
    sort_context(&mut candidate.context, limit);
}

pub open spec fn item_print() -> spec_fn(ContextView) -> u64 {
    |item: ContextView| fingerprint(item.text)
}

/// No two items have the same fingerprint.
pub open spec fn fingerprints_differ(context: Seq<ContextView>) -> bool {
    distinct_by(context, item_print())
}

/// Putting an item to a context leaves a context without repetition. It is no longer than its
/// limit, where it was not longer before, and it holds nothing but the items that were there and
/// the new one.
pub proof fn law_with_item(context: Seq<ContextView>, item: ContextView, limit: int)
    requires
        limit >= 0,
        fingerprints_differ(context),
    ensures
        fingerprints_differ(with_item(context, item, limit)),
        context.len() <= limit ==> with_item(context, item, limit).len() <= limit,
        forall|x: ContextView| #[trigger]
            with_item(context, item, limit).contains(x) ==> x == item || context.contains(x),
{
    let after = with_item(context, item, limit);
    if nonblank(item.text) is Some && !has_fingerprint(context, fingerprint(item.text)) {
        let all = context.push(item);
        let print = item_print();
        let sorted = sorted_by(all, entropy_order());
        assert forall|i: int, j: int| 0 <= i < j < all.len() implies print(#[trigger] all[i])
            != print(#[trigger] all[j]) by {
            if j < context.len() {
                assert(print(context[i]) != print(context[j]));
            } else {
                assert(all[i] == context[i]);
            }
        }
        lemma_sorting_keeps_distinct(all, entropy_order(), print);
        law_sorting_keeps_items(all, entropy_order());
        assert forall|i: int, j: int| 0 <= i < j < after.len() implies print(#[trigger] after[i])
            != print(#[trigger] after[j]) by {
            assert(after[i] == sorted[i] && after[j] == sorted[j]);
        }
        assert forall|x: ContextView| #[trigger] after.contains(x) implies x == item
            || context.contains(x) by {
            let k = after.index_of(x);
            assert(sorted[k] == x);
            assert(sorted.contains(x));
            lemma_sorted_contains(all, entropy_order(), x);
            let m = all.index_of(x);
            if m < context.len() {
                assert(context[m] == x);
            }
        }
    }
}

/// Where every item has an entropy score, the items of a context stand by entropy and time.
pub proof fn law_context_is_ordered(context: Seq<ContextView>, limit: int)
    requires
        limit >= 0,
        forall|i: int| 0 <= i < context.len() ==> !not_a_number((#[trigger] context[i]).entropy),
    ensures
        forall|i: int, j: int|
            0 <= i < j < most_telling(context, limit).len() ==> !more_telling(
                #[trigger] most_telling(context, limit)[j],
                #[trigger] most_telling(context, limit)[i],
            ),
{
    let sorted = sorted_by(context, entropy_order());
    let scored = |item: ContextView| !not_a_number(item.entropy);
    assert(weak_order(entropy_order(), scored));
    law_sorting_orders(context, entropy_order(), scored);
    let before = entropy_order();
    assert forall|i: int, j: int| 0 <= i < j < most_telling(context, limit).len() implies !more_telling(
        #[trigger] most_telling(context, limit)[j],
        #[trigger] most_telling(context, limit)[i],
    ) by {
        assert(!before(sorted[j], sorted[i]));
    }
}

/// A word is stripped of what is neither letter nor number at its two ends, and put in lower case.
pub proof fn law_bare_word(a: Seq<char>, m: Seq<char>, b: Seq<char>)
    requires
        forall|i: int| 0 <= i < a.len() ==> !alphanumeric(#[trigger] a[i]),
        forall|i: int| 0 <= i < b.len() ==> !alphanumeric(#[trigger] b[i]),
        m.len() > 0 ==> alphanumeric(m[0]) && alphanumeric(m.last()),
    ensures
        bare_word(a + m + b) == lowered(m),
{
    let s = a + m + b;
    let k = if m.len() > 0 {
        a.len() as int
    } else {
        s.len() as int
    };
    assert forall|i: int| 0 <= i < k implies !alphanumeric(s[i]) by {
        if i < a.len() {
            assert(s[i] == a[i]);
        } else {
            assert(s[i] == b[i - a.len()]);
        }
    }
    if m.len() > 0 {
        assert(s[k] == m[0]);
    }
    lemma_bare_start_at(s, k);
    let tail = s.skip(k);
    assert forall|i: int| m.len() <= i < tail.len() implies !alphanumeric(tail[i]) by {
        assert(tail[i] == b[i - m.len()]);
    }
    if m.len() > 0 {
        assert(tail[m.len() - 1] == m.last());
    }
    lemma_bare_end_at(tail, m.len() as int);
    assert(tail.take(m.len() as int) =~= m);
}

/// The words that tell something are all the words of a text that have more than one byte when they
/// are stripped, in their order and as often as they come.
pub proof fn law_entropy_tokens(text: Seq<char>)
    ensures
        entropy_tokens(text) == words(text).map_values(|word: Seq<char>| bare_word(word)).filter(
            |word: Seq<char>| byte_len(word) > 1,
        ),
{
    lemma_tokens_of(words(text));
}

proof fn lemma_tokens_of(all: Seq<Seq<char>>)
    ensures
        tokens_of(all) == all.map_values(|word: Seq<char>| bare_word(word)).filter(
            |word: Seq<char>| byte_len(word) > 1,
        ),
    decreases all.len(),
{
    reveal(Seq::filter);
    let bare = all.map_values(|word: Seq<char>| bare_word(word));
    if all.len() > 0 {
        lemma_tokens_of(all.drop_last());
        assert(bare.drop_last() =~= all.drop_last().map_values(|word: Seq<char>| bare_word(word)));
        assert(bare.last() == bare_word(all.last()));
    }
}

/// One time comes before another where it is less, and no time comes before any.
pub proof fn law_earlier(a: i128, b: i128, c: Option<i128>)
    ensures
        earlier(Some(a), Some(b)) <==> a < b,
        earlier(None, Some(b)),
        !earlier(c, None),
{
}

/// An item of higher entropy is more telling, whatever the times; of two items of the same entropy
/// the later one is.
pub proof fn law_more_telling(a: ContextView, b: ContextView)
    ensures
        score_less(b.entropy, a.entropy) ==> more_telling(a, b) && !more_telling(b, a),
        a.entropy == b.entropy ==> (more_telling(a, b) <==> earlier(
            b.timestamp_ms,
            a.timestamp_ms,
        )),
{
    crate::score::law_score_order(a.entropy, b.entropy, a.entropy);
}

/// The first items of a list are as many as are asked for, or all of them.
pub proof fn law_first_items<A>(s: Seq<A>, count: int)
    requires
        count >= 0,
    ensures
        first_items(s, count).len() == vstd::math::min(s.len() as int, count),
        forall|i: int| 0 <= i < first_items(s, count).len() ==> #[trigger] first_items(s, count)[i]
            == s[i],
{
}

/// A blank item, or one with the text of one that is there, changes nothing.
pub proof fn law_item_changes_nothing(
    context: Seq<ContextView>,
    item: ContextView,
    limit: int,
    k: int,
)
    ensures
        nonblank(item.text) is None ==> with_item(context, item, limit) == context,
        0 <= k < context.len() && context[k].text == item.text ==> with_item(context, item, limit)
            == context,
{
    if 0 <= k < context.len() && context[k].text == item.text {
        assert(fingerprint(context[k].text) == fingerprint(item.text));
    }
}

/// An item with a text that no other has the fingerprint of is put to the context. Where the limit
/// allows, all items stay; else the least telling ones are left out.
pub proof fn law_item_is_put(context: Seq<ContextView>, item: ContextView, limit: int)
    requires
        limit >= 0,
        nonblank(item.text) is Some,
        forall|i: int|
            0 <= i < context.len() ==> fingerprint((#[trigger] context[i]).text) != fingerprint(
                item.text,
            ),
        forall|i: int| 0 <= i < context.len() ==> !not_a_number((#[trigger] context[i]).entropy),
        !not_a_number(item.entropy),
    ensures
        ({
            let all = context.push(item);
            let after = with_item(context, item, limit);
            &&& after.len() == vstd::math::min(all.len() as int, limit)
            &&& all.len() <= limit ==> after.to_multiset() == all.to_multiset()
            &&& forall|i: int| 0 <= i < after.len() ==> all.contains(#[trigger] after[i])
            &&& forall|i: int, j: int|
                0 <= i < j < after.len() ==> !more_telling(#[trigger] after[j], #[trigger] after[i])
            &&& forall|i: int, other: ContextView|
                0 <= i < after.len() && #[trigger] all.contains(other) && !after.contains(other)
                    ==> !more_telling(other, #[trigger] after[i])
        }),
{
    let all = context.push(item);
    let after = with_item(context, item, limit);
    let before = entropy_order();
    let sorted = sorted_by(all, before);
    let scored = |item: ContextView| !not_a_number(item.entropy);
    assert(!has_fingerprint(context, fingerprint(item.text)));
    assert(weak_order(before, scored));
    assert forall|i: int| 0 <= i < all.len() implies scored(#[trigger] all[i]) by {
        if i < context.len() {
            assert(all[i] == context[i]);
        }
    }
    law_sorting_orders(all, before, scored);
    law_sorting_keeps_items(all, before);
    assert forall|i: int| 0 <= i < after.len() implies all.contains(#[trigger] after[i]) by {
        assert(sorted[i] == after[i]);
        assert(sorted.contains(after[i]));
        lemma_sorted_contains(all, before, after[i]);
    }
    assert forall|i: int, j: int| 0 <= i < j < after.len() implies !more_telling(
        #[trigger] after[j],
        #[trigger] after[i],
    ) by {
        assert(!before(sorted[j], sorted[i]));
    }
    assert forall|i: int, other: ContextView|
        0 <= i < after.len() && #[trigger] all.contains(other) && !after.contains(
            other,
        ) implies !more_telling(other, #[trigger] after[i]) by {
        lemma_sorted_contains(all, before, other);
        let k = sorted.index_of(other);
        if k < after.len() {
            assert(after[k] == other);
        }
        assert(!before(sorted[k], sorted[i]));
    }
}

/// Several items are put one after the other, the first one first.
pub proof fn law_items_in_turn(
    context: Seq<ContextView>,
    a: Seq<ContextView>,
    b: Seq<ContextView>,
    item: ContextView,
    limit: int,
)
    ensures
        with_items(context, seq![item], limit) == with_item(context, item, limit),
        with_items(context, a + b, limit) == with_items(with_items(context, a, limit), b, limit),
    decreases b.len(),
{
    let one = seq![item];
    let none = Seq::<ContextView>::empty();
    assert(one.drop_last() =~= none);
    assert(with_items(context, none, limit) == context);
    if b.len() == 0 {
        assert(a + b =~= a);
    } else {
        law_items_in_turn(context, a, b.drop_last(), item, limit);
        assert((a + b).drop_last() =~= a + b.drop_last());
        assert((a + b).last() == b.last());
    }
}

} // verus!
