//! Text operations, stated over sequences of characters.

use vstd::prelude::*;
use vstd::string::*;

verus! {

/// `String::push` appends one character at the end.
pub assume_specification[ String::push ](s: &mut String, ch: char)
    ensures
        final(s)@ == old(s)@.push(ch),
;

/// The views of an optional string slice and of an optional string.
pub open spec fn opt_str(o: Option<&str>) -> Option<Seq<char>> {
    match o {
        Some(s) => Some(s@),
        None => None,
    }
}

pub open spec fn opt_text(o: Option<String>) -> Option<Seq<char>> {
    match o {
        Some(s) => Some(s@),
        None => None,
    }
}

/// The views of a list of strings.
pub open spec fn texts(v: Seq<String>) -> Seq<Seq<char>> {
    v.map_values(|s: String| s@)
}

/// The characters with the Unicode property `White_Space`.
pub open spec fn is_space(c: char) -> bool {
    let u = c as u32;
    ||| 0x09 <= u <= 0x0d
    ||| u == 0x20
    ||| u == 0x85
    ||| u == 0xa0
    ||| u == 0x1680
    ||| 0x2000 <= u <= 0x200a
    ||| u == 0x2028
    ||| u == 0x2029
    ||| u == 0x202f
    ||| u == 0x205f
    ||| u == 0x3000
}

pub open spec fn is_digit(c: char) -> bool {
    '0' <= c <= '9'
}

pub open spec fn is_lower(c: char) -> bool {
    'a' <= c <= 'z'
}

pub open spec fn is_upper(c: char) -> bool {
    'A' <= c <= 'Z'
}

/// The lower-case form of an ASCII letter; every other character is kept.
pub open spec fn lower_char(c: char) -> char {
    if is_upper(c) {
        (c as u32 + 32) as char
    } else {
        c
    }
}

/// A text with its ASCII letters in lower case.
pub open spec fn lowered(s: Seq<char>) -> Seq<char> {
    s.map_values(|c: char| lower_char(c))
}

pub open spec fn trim_start(s: Seq<char>) -> Seq<char>
    decreases s.len(),
{
    if s.len() > 0 && is_space(s[0]) {
        trim_start(s.drop_first())
    } else {
        s
    }
}

pub open spec fn trim_end(s: Seq<char>) -> Seq<char>
    decreases s.len(),
{
    if s.len() > 0 && is_space(s.last()) {
        trim_end(s.drop_last())
    } else {
        s
    }
}

/// A text without the white space at its two ends.
pub open spec fn trimmed(s: Seq<char>) -> Seq<char> {
    trim_end(trim_start(s))
}

/// The trimmed text, when anything is left of it.
pub open spec fn nonblank(s: Seq<char>) -> Option<Seq<char>> {
    if trimmed(s).len() == 0 {
        None
    } else {
        Some(trimmed(s))
    }
}

/// The trimmed text of an optional text, when anything is left of it.
pub open spec fn cleaned(s: Option<Seq<char>>) -> Option<Seq<char>> {
    match s {
        Some(t) => nonblank(t),
        None => None,
    }
}

/// The first of two optional values that is there.
pub open spec fn first_of<A>(left: Option<A>, right: Option<A>) -> Option<A> {
    match left {
        Some(a) => Some(a),
        None => right,
    }
}

/// A text without the `mark` characters that it starts with.
pub open spec fn without_leading(s: Seq<char>, mark: char) -> Seq<char>
    decreases s.len(),
{
    if s.len() > 0 && s[0] == mark {
        without_leading(s.drop_first(), mark)
    } else {
        s
    }
}

/// The maximal runs of characters that are not white space, in order.
pub open spec fn words(s: Seq<char>) -> Seq<Seq<char>>
    decreases s.len(),
{
    if s.len() == 0 {
        Seq::empty()
    } else {
        let before = words(s.drop_last());
        if is_space(s.last()) {
            before
        } else if s.len() >= 2 && !is_space(s[s.len() - 2]) {
            before.drop_last().push(before.last().push(s.last()))
        } else {
            before.push(seq![s.last()])
        }
    }
}

/// The number of bytes of a text in UTF-8.
pub open spec fn byte_len(s: Seq<char>) -> nat {
    vstd::utf8::encode_utf8(s).len()
}

pub open spec fn starts(s: Seq<char>, prefix: Seq<char>) -> bool {
    prefix.len() <= s.len() && s.take(prefix.len() as int) == prefix
}

pub open spec fn ends(s: Seq<char>, suffix: Seq<char>) -> bool {
    suffix.len() <= s.len() && s.skip(s.len() - suffix.len()) == suffix
}

/// `part` stands in `s` from index `at` on.
pub open spec fn stands_at(s: Seq<char>, part: Seq<char>, at: int) -> bool {
    0 <= at && at + part.len() <= s.len() && s.subrange(at, at + part.len()) == part
}

/// `part` stands somewhere in `s`.
pub open spec fn holds_text(s: Seq<char>, part: Seq<char>) -> bool {
    exists|at: int| stands_at(s, part, at)
}

/// The order of texts by their code points, which is that of their UTF-8 bytes.
pub open spec fn text_less(a: Seq<char>, b: Seq<char>) -> bool
    decreases a.len(),
{
    if b.len() == 0 {
        false
    } else if a.len() == 0 {
        true
    } else if a[0] != b[0] {
        a[0] < b[0]
    } else {
        text_less(a.drop_first(), b.drop_first())
    }
}

pub open spec fn digit_char(n: int) -> char {
    (48 + n) as u8 as char
}

/// The decimal digits of a natural number.
pub open spec fn digits(n: nat) -> Seq<char>
    decreases n,
{
    if n < 10 {
        seq![digit_char(n as int)]
    } else {
        digits(n / 10).push(digit_char((n % 10) as int))
    }
}

/// A number in decimal, with a leading minus sign when it is negative.
pub open spec fn decimal(n: int) -> Seq<char> {
    if n < 0 {
        seq!['-'] + digits((-n) as nat)
    } else {
        digits(n as nat)
    }
}

/// The list `s` with `t` put before the first greater text, unless `t` comes first.
pub open spec fn insert_text(s: Seq<Seq<char>>, t: Seq<char>) -> Seq<Seq<char>>
    decreases s.len(),
{
    if s.len() == 0 {
        seq![t]
    } else if s[0] == t {
        s
    } else if text_less(t, s[0]) {
        seq![t] + s
    } else {
        seq![s[0]] + insert_text(s.drop_first(), t)
    }
}

/// Each text comes before every later one.
pub open spec fn ascending(s: Seq<Seq<char>>) -> bool {
    forall|i: int, j: int| 0 <= i < j < s.len() ==> text_less(s[i], s[j])
}

/// Reads the characters of a string slice.
pub fn chars_of(s: &str) -> (r: Vec<char>)
    ensures
        r@ == s@,
{
    let mut out: Vec<char> = Vec::new();
    for c in it: s.chars()
        invariant
            out@ == it.seq().take(it.index()),
            it.seq() == s@,
    {
        out.push(c);
    }
    out
}

/// Whether two string slices hold the same characters.
pub fn same_text(a: &str, b: &str) -> (r: bool)
    ensures
        r == (a@ == b@),
{
    a.to_owned() == b.to_owned()
}

pub fn char_is_space(c: char) -> (r: bool)
    ensures
        r == is_space(c),
{
    let u = c as u32;
    (0x09 <= u && u <= 0x0d) || u == 0x20 || u == 0x85 || u == 0xa0 || u == 0x1680 || (0x2000 <= u
        && u <= 0x200a) || u == 0x2028 || u == 0x2029 || u == 0x202f || u == 0x205f || u == 0x3000
}

pub fn char_to_lower(c: char) -> (r: char)
    ensures
        r == lower_char(c),
{
    if 'A' <= c && c <= 'Z' {
        (c as u8 + 32) as char
    } else {
        c
    }
}

proof fn lemma_trim_start_at(s: Seq<char>, k: int)
    requires
        0 <= k <= s.len(),
        forall|i: int| 0 <= i < k ==> is_space(s[i]),
        k < s.len() ==> !is_space(s[k]),
    ensures
        trim_start(s) == s.skip(k),
    decreases k,
{
    if k > 0 {
        lemma_trim_start_at(s.drop_first(), k - 1);
        assert(s.drop_first().skip(k - 1) =~= s.skip(k));
    } else {
        assert(s.skip(0) =~= s);
    }
}

proof fn lemma_trim_end_at(s: Seq<char>, k: int)
    requires
        0 <= k <= s.len(),
        forall|i: int| k <= i < s.len() ==> is_space(s[i]),
        k > 0 ==> !is_space(s[k - 1]),
    ensures
        trim_end(s) == s.take(k),
    decreases s.len() - k,
{
    if k < s.len() {
        lemma_trim_end_at(s.drop_last(), k);
        assert(s.drop_last().take(k) =~= s.take(k));
    } else {
        assert(s.take(k) =~= s);
    }
}

/// Cuts the white space off both ends.
pub fn trim(s: &str) -> (r: &str)
    ensures
        r@ == trimmed(s@),
{
    let chars = chars_of(s);
    let n = chars.len();
    let mut start: usize = 0;
    while start < n && char_is_space(chars[start])
        invariant
            start <= n,
            n == chars@.len(),
            forall|i: int| 0 <= i < start ==> is_space(chars@[i]),
        decreases n - start,
    {
        start = start + 1;
    }
    let mut end: usize = n;
    while end > start && char_is_space(chars[end - 1])
        invariant
            start <= end <= n,
            n == chars@.len(),
            forall|i: int| end <= i < n ==> is_space(chars@[i]),
        decreases end,
    {
        end = end - 1;
    }
    proof {
        lemma_trim_start_at(s@, start as int);
        let tail = s@.skip(start as int);
        lemma_trim_end_at(tail, end - start);
        assert(tail.take(end - start) =~= s@.subrange(start as int, end as int));
    }
    s.substring_char(start, end)
}

/// The trimmed text, when anything is left of it.
pub fn clean(s: &str) -> (r: Option<&str>)
    ensures
        opt_str(r) == nonblank(s@),
{
    let t = trim(s);
    if t.is_empty() {
        None
    } else {
        Some(t)
    }
}

/// The trimmed text of an optional text, when anything is left of it.
pub fn clean_opt(s: Option<&str>) -> (r: Option<&str>)
    ensures
        opt_str(r) == cleaned(opt_str(s)),
{
    match s {
        Some(t) => clean(t),
        None => None,
    }
}

/// Lends the text of an optional string.
pub fn as_text(o: &Option<String>) -> (r: Option<&str>)
    ensures
        opt_str(r) == opt_text(*o),
{
    match o {
        Some(s) => Some(s.as_str()),
        None => None,
    }
}

/// Copies an optional string slice.
pub fn own(o: Option<&str>) -> (r: Option<String>)
    ensures
        opt_text(r) == opt_str(o),
{
    match o {
        Some(s) => Some(s.to_owned()),
        None => None,
    }
}

proof fn lemma_without_leading_at(s: Seq<char>, mark: char, k: int)
    requires
        0 <= k <= s.len(),
        forall|i: int| 0 <= i < k ==> s[i] == mark,
        k < s.len() ==> s[k] != mark,
    ensures
        without_leading(s, mark) == s.skip(k),
    decreases k,
{
    if k > 0 {
        lemma_without_leading_at(s.drop_first(), mark, k - 1);
        assert(s.drop_first().skip(k - 1) =~= s.skip(k));
    } else {
        assert(s.skip(0) =~= s);
    }
}

/// What is left starts with another character, where anything is left.
pub proof fn law_without_leading(s: Seq<char>, mark: char)
    ensures
        without_leading(s, mark).len() > 0 ==> without_leading(s, mark)[0] != mark,
    decreases s.len(),
{
    if s.len() > 0 && s[0] == mark {
        law_without_leading(s.drop_first(), mark);
    }
}

/// Cuts the `mark` characters off the start.
pub fn strip_leading(s: &str, mark: char) -> (r: &str)
    ensures
        r@ == without_leading(s@, mark),
{
    let chars = chars_of(s);
    let n = chars.len();
    let mut start: usize = 0;
    while start < n && chars[start] == mark
        invariant
            start <= n,
            n == chars@.len(),
            forall|i: int| 0 <= i < start ==> chars@[i] == mark,
        decreases n - start,
    {
        start = start + 1;
    }
    proof {
        lemma_without_leading_at(s@, mark, start as int);
        assert(s@.skip(start as int) =~= s@.subrange(start as int, n as int));
    }
    s.substring_char(start, n)
}

/// Puts the ASCII letters of a text in lower case.
pub fn to_lower(s: &str) -> (r: String)
    ensures
        r@ == lowered(s@),
{
    let chars = chars_of(s);
    let mut out = String::new();
    for i in 0..chars.len()
        invariant
            chars@ == s@,
            out@ == lowered(s@.take(i as int)),
    {
        out.push(char_to_lower(chars[i]));
        assert(lowered(s@.take(i + 1)) =~= lowered(s@.take(i as int)).push(
            lower_char(s@[i as int]),
        ));
    }
    assert(s@.take(s@.len() as int) =~= s@);
    out
}

proof fn lemma_words_not_empty(s: Seq<char>)
    requires
        s.len() > 0,
        !is_space(s.last()),
    ensures
        words(s).len() > 0,
    decreases s.len(),
{
    if s.len() >= 2 && !is_space(s[s.len() - 2]) {
        lemma_words_not_empty(s.drop_last());
    }
}

/// Counts the words of a text.
pub fn word_count(s: &str) -> (r: usize)
    ensures
        r == words(s@).len(),
{
    let chars = chars_of(s);
    let mut count: usize = 0;
    for i in 0..chars.len()
        invariant
            chars@ == s@,
            count <= i,
            count == words(s@.take(i as int)).len(),
    {
        let inside = i > 0 && !char_is_space(chars[i - 1]);
        proof {
            let next = s@.take(i + 1);
            assert(next.drop_last() =~= s@.take(i as int));
            if inside {
                lemma_words_not_empty(s@.take(i as int));
            }
        }
        if !char_is_space(chars[i]) && !inside {
            count = count + 1;
        }
    }
    assert(s@.take(s@.len() as int) =~= s@);
    count
}

/// The words of a text.
pub fn split_words(s: &str) -> (r: Vec<String>)
    ensures
        texts(r@) == words(s@),
{
    let chars = chars_of(s);
    let mut out: Vec<String> = Vec::new();
    assert(texts(out@) =~= words(s@.take(0)));
    for i in 0..chars.len()
        invariant
            chars@ == s@,
            texts(out@) == words(s@.take(i as int)),
    {
        let inside = i > 0 && !char_is_space(chars[i - 1]);
        let ghost before = texts(out@);
        proof {
            let next = s@.take(i + 1);
            assert(next.drop_last() =~= s@.take(i as int));
            if inside {
                lemma_words_not_empty(s@.take(i as int));
                assert(out@.len() == before.len());
            }
        }
        if !char_is_space(chars[i]) {
            let mut word = if inside {
                out.pop().unwrap()
            } else {
                String::new()
            };
            word.push(chars[i]);
            let ghost grown = word@;
            out.push(word);
            proof {
                if inside {
                    assert(grown == before.last().push(chars@[i as int]));
                    assert(texts(out@) =~= before.drop_last().push(grown));
                } else {
                    assert(grown =~= seq![chars@[i as int]]);
                    assert(texts(out@) =~= before.push(grown));
                }
            }
        }
    }
    assert(s@.take(s@.len() as int) =~= s@);
    out
}

/// The number of bytes of a text.
pub fn bytes_in(s: &str) -> (r: usize)
    ensures
        r == byte_len(s@),
{
    s.as_bytes().len()
}

/// Whether `part` stands in `s` from index `at` on.
fn matches_at(s: &Vec<char>, part: &Vec<char>, at: usize) -> (r: bool)
    requires
        at + part@.len() <= s@.len(),
    ensures
        r == stands_at(s@, part@, at as int),
{
    let n = s.len();
    for i in 0..part.len()
        invariant
            n == s@.len(),
            at + part@.len() <= n,
            forall|j: int| 0 <= j < i ==> s@[at + j] == part@[j],
    {
        if s[at + i] != part[i] {
            assert(s@.subrange(at as int, at + part@.len())[i as int] != part@[i as int]);
            return false;
        }
    }
    assert(s@.subrange(at as int, at + part@.len()) =~= part@);
    true
}

pub fn starts_with(s: &str, prefix: &str) -> (r: bool)
    ensures
        r == starts(s@, prefix@),
{
    let chars = chars_of(s);
    let part = chars_of(prefix);
    assert(part@.len() <= chars@.len() ==> chars@.subrange(0, part@.len() as int) =~= chars@.take(
        part@.len() as int,
    ));
    part.len() <= chars.len() && matches_at(&chars, &part, 0)
}

pub fn ends_with(s: &str, suffix: &str) -> (r: bool)
    ensures
        r == ends(s@, suffix@),
{
    let chars = chars_of(s);
    let part = chars_of(suffix);
    assert(part@.len() <= chars@.len() ==> chars@.subrange(
        chars@.len() - part@.len(),
        chars@.len() as int,
    ) =~= chars@.skip(chars@.len() - part@.len()));
    part.len() <= chars.len() && matches_at(&chars, &part, chars.len() - part.len())
}

pub fn contains(s: &str, part: &str) -> (r: bool)
    ensures
        r == holds_text(s@, part@),
{
    let chars = chars_of(s);
    let wanted = chars_of(part);
    if wanted.len() > chars.len() {
        return false;
    }
    let last = chars.len() - wanted.len();
    let mut at: usize = 0;
    while at <= last
        invariant
            chars@ == s@,
            wanted@ == part@,
            last == chars@.len() - wanted@.len(),
            at <= last + 1,
            last < usize::MAX || at <= last,
            forall|i: int| 0 <= i < at ==> !stands_at(s@, part@, i),
        decreases last + 1 - at,
    {
        if matches_at(&chars, &wanted, at) {
            return true;
        }
        if at == last {
            assert forall|i: int| !stands_at(s@, part@, i) by {}
            return false;
        }
        at = at + 1;
    }
    false
}

/// Whether the text `a` comes before the text `b`.
pub fn comes_before(a: &str, b: &str) -> (r: bool)
    ensures
        r == text_less(a@, b@),
{
    let left = chars_of(a);
    let right = chars_of(b);
    let mut i: usize = 0;
    assert(a@.skip(0) =~= a@);
    assert(b@.skip(0) =~= b@);
    while i < left.len() && i < right.len()
        invariant
            left@ == a@,
            right@ == b@,
            i <= left@.len(),
            i <= right@.len(),
            text_less(a@, b@) == text_less(a@.skip(i as int), b@.skip(i as int)),
        decreases left@.len() - i,
    {
        if left[i] != right[i] {
            return left[i] < right[i];
        }
        proof {
            assert(a@.skip(i as int).drop_first() =~= a@.skip(i + 1));
            assert(b@.skip(i as int).drop_first() =~= b@.skip(i + 1));
        }
        i = i + 1;
    }
    i < right.len()
}

/// Writes a natural number in decimal.
fn push_digits(n: u64, out: &mut String)
    ensures
        final(out)@ == old(out)@ + digits(n as nat),
    decreases n,
{
    if n < 10 {
        out.push((48 + n as u8) as char);
        assert(out@ =~= old(out)@ + digits(n as nat));
    } else {
        push_digits(n / 10, out);
        out.push((48 + (n % 10) as u8) as char);
        assert(out@ =~= old(out)@ + digits(n as nat));
    }
}

/// A natural number in decimal.
pub fn unsigned_text(n: u64) -> (r: String)
    ensures
        r@ == decimal(n as int),
{
    let mut out = String::new();
    push_digits(n, &mut out);
    assert(out@ =~= decimal(n as int));
    out
}

/// A number in decimal.
pub fn signed_text(n: i64) -> (r: String)
    ensures
        r@ == decimal(n as int),
{
    if n < 0 {
        let mut out = String::new();
        out.push('-');
        push_digits((-(n as i128)) as u64, &mut out);
        assert(out@ =~= decimal(n as int));
        out
    } else {
        unsigned_text(n as u64)
    }
}

/// Two texts one after the other.
pub fn joined(a: &str, b: &str) -> (r: String)
    ensures
        r@ == a@ + b@,
{
    a.to_owned().concat(b)
}

proof fn lemma_insert_text_at(s: Seq<Seq<char>>, t: Seq<char>, k: int)
    requires
        0 <= k <= s.len(),
        forall|i: int| 0 <= i < k ==> s[i] != t && !text_less(t, s[i]),
        k < s.len() ==> (s[k] == t || text_less(t, s[k])),
    ensures
        insert_text(s, t) == (if k < s.len() && s[k] == t {
            s
        } else {
            s.insert(k, t)
        }),
    decreases k,
{
    if k > 0 {
        let rest = s.drop_first();
        assert forall|i: int| 0 <= i < k - 1 implies rest[i] != t && !text_less(t, rest[i]) by {
            assert(rest[i] == s[i + 1]);
        }
        lemma_insert_text_at(rest, t, k - 1);
        if k < s.len() && s[k] == t {
            assert(seq![s[0]] + rest =~= s);
        } else {
            assert(seq![s[0]] + rest.insert(k - 1, t) =~= s.insert(k, t));
        }
    } else if s.len() == 0 {
        assert(s.insert(0, t) =~= seq![t]);
    } else if s[0] != t {
        assert(s.insert(0, t) =~= seq![t] + s);
    }
}

/// Puts a text into a sorted list of distinct texts.
pub fn put_text(list: &mut Vec<String>, value: String)
    ensures
        texts(final(list)@) == insert_text(texts(old(list)@), value@),
{
    let ghost before = texts(list@);
    let mut at: usize = 0;
    while at < list.len() && !same_text(list[at].as_str(), value.as_str()) && !comes_before(
        value.as_str(),
        list[at].as_str(),
    )
        invariant
            at <= list@.len(),
            before == texts(list@),
            list@ == old(list)@,
            forall|i: int| 0 <= i < at ==> before[i] != value@ && !text_less(value@, before[i]),
        decreases list@.len() - at,
    {
        at = at + 1;
    }
    proof {
        lemma_insert_text_at(before, value@, at as int);
    }
    if at < list.len() && same_text(list[at].as_str(), value.as_str()) {
        return ;
    }
    let ghost t = value@;
    list.insert(at, value);
    assert(texts(list@) =~= before.insert(at as int, t));
}

/// A text never comes before itself.
pub proof fn law_order_irreflexive(a: Seq<char>)
    ensures
        !text_less(a, a),
    decreases a.len(),
{
    if a.len() > 0 {
        law_order_irreflexive(a.drop_first());
    }
}

/// Of two different texts one comes before the other.
pub proof fn law_order_total(a: Seq<char>, b: Seq<char>)
    ensures
        a == b || text_less(a, b) || text_less(b, a),
    decreases a.len(),
{
    if a.len() > 0 && b.len() > 0 {
        if a[0] == b[0] {
            law_order_total(a.drop_first(), b.drop_first());
            if a.drop_first() == b.drop_first() {
                assert(a =~= seq![a[0]] + a.drop_first());
                assert(b =~= seq![b[0]] + b.drop_first());
            }
        }
    } else if a.len() == 0 && b.len() == 0 {
        assert(a =~= b);
    }
}

/// The order of texts is transitive.
pub proof fn law_order_transitive(a: Seq<char>, b: Seq<char>, c: Seq<char>)
    requires
        text_less(a, b),
        text_less(b, c),
    ensures
        text_less(a, c),
    decreases a.len(),
{
    if a.len() > 0 && a[0] == b[0] && b[0] == c[0] {
        law_order_transitive(a.drop_first(), b.drop_first(), c.drop_first());
    }
}

/// Putting a text into a sorted list keeps the list sorted and adds that text alone.
pub proof fn law_insert_text(s: Seq<Seq<char>>, t: Seq<char>)
    requires
        ascending(s),
    ensures
        ascending(insert_text(s, t)),
        forall|x: Seq<char>| #[trigger]
            insert_text(s, t).contains(x) <==> (x == t || s.contains(x)),
    decreases s.len(),
{
    let r = insert_text(s, t);
    if s.len() == 0 {
        assert(r[0] == t);
    } else if s[0] == t {
        assert(s.contains(t));
    } else if text_less(t, s[0]) {
        assert forall|i: int, j: int| 0 <= i < j < r.len() implies text_less(r[i], r[j]) by {
            if i == 0 && j > 1 {
                law_order_transitive(t, s[0], s[j - 1]);
            }
        }
        assert forall|x: Seq<char>| #[trigger] r.contains(x) <==> (x == t || s.contains(x)) by {
            if s.contains(x) {
                let k = s.index_of(x);
                assert(r[k + 1] == x);
            }
            if x == t {
                assert(r[0] == x);
            }
        }
    } else {
        let rest = s.drop_first();
        let tail = insert_text(rest, t);
        assert forall|i: int, j: int| 0 <= i < j < rest.len() implies text_less(
            rest[i],
            rest[j],
        ) by {
            assert(rest[i] == s[i + 1] && rest[j] == s[j + 1]);
        }
        law_insert_text(rest, t);
        law_order_total(s[0], t);
        assert forall|i: int, j: int| 0 <= i < j < r.len() implies text_less(r[i], r[j]) by {
            if i == 0 {
                assert(tail.contains(tail[j - 1]));
                if tail[j - 1] != t {
                    let k = rest.index_of(tail[j - 1]);
                    assert(s[k + 1] == tail[j - 1]);
                }
            }
        }
        assert forall|x: Seq<char>| #[trigger] r.contains(x) <==> (x == t || s.contains(x)) by {
            if r.contains(x) {
                let k = r.index_of(x);
                if k > 0 {
                    assert(tail[k - 1] == x);
                    assert(tail.contains(x));
                    if x != t {
                        let m = rest.index_of(x);
                        assert(s[m + 1] == x);
                    }
                }
            }
            if x == t || s.contains(x) {
                if x == s[0] {
                    assert(r[0] == x);
                } else {
                    if x != t {
                        let m = s.index_of(x);
                        assert(rest[m - 1] == x);
                    }
                    assert(tail.contains(x));
                    let k = tail.index_of(x);
                    assert(r[k + 1] == x);
                }
            }
        }
    }
}

proof fn lemma_trim_start_first(s: Seq<char>)
    ensures
        trim_start(s).len() > 0 ==> !is_space(trim_start(s)[0]),
    decreases s.len(),
{
    if s.len() > 0 && is_space(s[0]) {
        lemma_trim_start_first(s.drop_first());
    }
}

proof fn lemma_trim_end_ends(s: Seq<char>)
    ensures
        trim_end(s).len() <= s.len(),
        trim_end(s) == s.take(trim_end(s).len() as int),
        trim_end(s).len() > 0 ==> !is_space(trim_end(s).last()),
    decreases s.len(),
{
    if s.len() > 0 && is_space(s.last()) {
        lemma_trim_end_ends(s.drop_last());
        assert(s.drop_last().take(trim_end(s).len() as int) =~= s.take(trim_end(s).len() as int));
    } else {
        assert(s.take(s.len() as int) =~= s);
    }
}

/// Trimming a trimmed text changes nothing.
pub proof fn law_trimmed_again(s: Seq<char>)
    ensures
        trimmed(trimmed(s)) == trimmed(s),
        cleaned(nonblank(s)) == nonblank(s),
{
    lemma_trim_start_first(s);
    lemma_trim_end_ends(trim_start(s));
}

/// Two sorted lists of the same texts are the same list.
pub proof fn law_ascending_unique(a: Seq<Seq<char>>, b: Seq<Seq<char>>)
    requires
        ascending(a),
        ascending(b),
        forall|x: Seq<char>| #[trigger] a.contains(x) <==> b.contains(x),
    ensures
        a == b,
    decreases a.len(),
{
    if a.len() == 0 {
        if b.len() > 0 {
            assert(b.contains(b[0]));
            assert(a.contains(b[0]));
        }
        assert(a =~= b);
    } else {
        assert(a.contains(a[0]));
        assert(b.contains(a[0]));
        let i = b.index_of(a[0]);
        assert(b.contains(b[0]));
        assert(a.contains(b[0]));
        let j = a.index_of(b[0]);
        if i > 0 && j > 0 {
            law_order_transitive(a[0], b[0], a[0]);
            law_order_irreflexive(a[0]);
        }
        assert(a[0] == b[0]);
        let a1 = a.drop_first();
        let b1 = b.drop_first();
        assert(forall|i: int| 0 <= i < a1.len() ==> a1[i] == a[i + 1]);
        assert(forall|i: int| 0 <= i < b1.len() ==> b1[i] == b[i + 1]);
        assert forall|x: Seq<char>| #[trigger] a1.contains(x) <==> b1.contains(x) by {
            law_order_irreflexive(x);
            if a1.contains(x) {
                let k = a1.index_of(x);
                assert(a[k + 1] == x);
                assert(a.contains(x));
                let m = b.index_of(x);
                assert(m > 0);
                assert(b1[m - 1] == x);
            }
            if b1.contains(x) {
                let k = b1.index_of(x);
                assert(b[k + 1] == x);
                assert(b.contains(x));
                assert(a.contains(x));
                let m = a.index_of(x);
                assert(m > 0);
                assert(a1[m - 1] == x);
            }
        }
        law_ascending_unique(a1, b1);
        assert(a =~= seq![a[0]] + a1);
        assert(b =~= seq![b[0]] + b1);
    }
}

/// A text in lower case stays as it is.
pub proof fn law_lowered_again(s: Seq<char>)
    ensures
        lowered(lowered(s)) == lowered(s),
{
    assert(lowered(lowered(s)) =~= lowered(s));
}

proof fn lemma_digits(n: nat)
    ensures
        digits(n).len() > 0,
        digits(n)[0] != '-',
        digits(n).len() == 1 <==> n < 10,
    decreases n,
{
    if n >= 10 {
        lemma_digits(n / 10);
    }
}

proof fn lemma_digits_differ(a: nat, b: nat)
    requires
        digits(a) == digits(b),
    ensures
        a == b,
    decreases a,
{
    lemma_digits(a);
    lemma_digits(b);
    if a < 10 {
        assert(digits(a)[0] == digits(b)[0]);
    } else {
        let whole_a = digits(a / 10).push(digit_char((a % 10) as int));
        let whole_b = digits(b / 10).push(digit_char((b % 10) as int));
        assert(whole_a.drop_last() =~= digits(a / 10));
        assert(whole_b.drop_last() =~= digits(b / 10));
        assert(whole_a.last() == whole_b.last());
        lemma_digits_differ(a / 10, b / 10);
    }
}

/// Different numbers have different texts.
pub proof fn law_decimal(a: int, b: int)
    requires
        decimal(a) == decimal(b),
    ensures
        a == b,
{
    if a >= 0 {
        lemma_digits(a as nat);
    }
    if b >= 0 {
        lemma_digits(b as nat);
    }
    if a < 0 && b < 0 {
        let minus = seq!['-'];
        assert((minus + digits((-a) as nat)).skip(1) =~= digits((-a) as nat));
        assert((minus + digits((-b) as nat)).skip(1) =~= digits((-b) as nat));
        lemma_digits_differ((-a) as nat, (-b) as nat);
    } else if a < 0 {
        assert(decimal(a)[0] == '-');
    } else if b < 0 {
        assert(decimal(b)[0] == '-');
    } else {
        lemma_digits_differ(a as nat, b as nat);
    }
}

/// A text of white space alone.
pub open spec fn all_space(s: Seq<char>) -> bool {
    forall|i: int| 0 <= i < s.len() ==> is_space(#[trigger] s[i])
}

/// White space is what Unicode lists as such, by its code points.
pub proof fn law_white_space(c: char)
    ensures
        is_space(c) <==> seq![
            9int,
            10,
            11,
            12,
            13,
            32,
            133,
            160,
            5760,
            8192,
            8193,
            8194,
            8195,
            8196,
            8197,
            8198,
            8199,
            8200,
            8201,
            8202,
            8232,
            8233,
            8239,
            8287,
            12288,
        ].contains(c as int),
{
    let points = seq![
        9int,
        10,
        11,
        12,
        13,
        32,
        133,
        160,
        5760,
        8192,
        8193,
        8194,
        8195,
        8196,
        8197,
        8198,
        8199,
        8200,
        8201,
        8202,
        8232,
        8233,
        8239,
        8287,
        12288,
    ];
    let u = c as int;
    let k: int = if u <= 13 {
        u - 9
    } else if u == 32 {
        5
    } else if u == 133 {
        6
    } else if u == 160 {
        7
    } else if u == 5760 {
        8
    } else if u <= 8202 {
        u - 8183
    } else if u == 8232 {
        20
    } else if u == 8233 {
        21
    } else if u == 8239 {
        22
    } else if u == 8287 {
        23
    } else {
        24
    };
    if is_space(c) {
        assert(points[k] == u);
    }
}

/// Trimming takes the white space off both ends, and nothing else. Where nothing is left, there is
/// no text.
pub proof fn law_trimming(before: Seq<char>, core: Seq<char>, after: Seq<char>)
    requires
        all_space(before),
        all_space(after),
        core.len() > 0 ==> !is_space(core[0]) && !is_space(core.last()),
    ensures
        trimmed(before + core + after) == core,
        nonblank(before + core + after) == (if core.len() > 0 {
            Some(core)
        } else {
            None
        }),
        cleaned(Some(before + core + after)) == nonblank(before + core + after),
        cleaned(None) is None,
{
    let s = before + core + after;
    let k = if core.len() > 0 {
        before.len() as int
    } else {
        s.len() as int
    };
    assert forall|i: int| 0 <= i < k implies is_space(s[i]) by {
        if i < before.len() {
            assert(s[i] == before[i]);
        } else {
            assert(s[i] == after[i - before.len()]);
        }
    }
    if core.len() > 0 {
        assert(s[k] == core[0]);
    }
    lemma_trim_start_at(s, k);
    let tail = s.skip(k);
    assert forall|i: int| core.len() <= i < tail.len() implies is_space(tail[i]) by {
        assert(tail[i] == after[i - core.len()]);
    }
    if core.len() > 0 {
        assert(tail[core.len() - 1] == core.last());
    }
    lemma_trim_end_at(tail, core.len() as int);
    assert(tail.take(core.len() as int) =~= core);
}

/// In lower case each capital letter from A to Z is thirty-two places on, and every other character
/// is the same.
pub proof fn law_lowered(s: Seq<char>, i: int)
    requires
        0 <= i < s.len(),
    ensures
        lowered(s).len() == s.len(),
        65 <= s[i] as int <= 90 ==> lowered(s)[i] as int == s[i] as int + 32,
        s[i] as int <= 64 || s[i] as int >= 91 ==> lowered(s)[i] == s[i],
{
}

/// Lower case is made piece by piece.
pub proof fn law_lowered_pieces(a: Seq<char>, b: Seq<char>)
    ensures
        lowered(a + b) == lowered(a) + lowered(b),
{
    assert(lowered(a + b) =~= lowered(a) + lowered(b));
}

/// A text starts with a prefix, ends with a suffix or holds a part exactly where it is put together
/// from it and something else.
pub proof fn law_parts(s: Seq<char>, part: Seq<char>, a: Seq<char>, b: Seq<char>)
    ensures
        starts(part + b, part),
        ends(a + part, part),
        holds_text(a + part + b, part),
        starts(s, part) ==> s == part + s.skip(part.len() as int),
        ends(s, part) ==> s == s.take(s.len() - part.len()) + part,
        holds_text(s, part) ==> exists|x: Seq<char>, y: Seq<char>| s == #[trigger] (x + part + y),
{
    assert((part + b).take(part.len() as int) =~= part);
    assert((a + part).skip(a.len() as int) =~= part);
    let whole = a + part + b;
    assert(whole.subrange(a.len() as int, (a.len() + part.len()) as int) =~= part);
    assert(stands_at(whole, part, a.len() as int));
    if starts(s, part) {
        assert(s =~= s.take(part.len() as int) + s.skip(part.len() as int));
    }
    if ends(s, part) {
        let k = s.len() - part.len();
        assert(s =~= s.take(k) + s.skip(k));
    }
    if holds_text(s, part) {
        let at = choose|at: int| stands_at(s, part, at);
        let x = s.take(at);
        let y = s.skip(at + part.len());
        assert(s =~= x + s.subrange(at, at + part.len()) + y);
        assert(s == x + part + y);
    }
}

/// However many marks a text starts with, they are all taken off, and nothing behind them.
pub proof fn law_leading_marks(count: nat, mark: char, rest: Seq<char>)
    requires
        rest.len() > 0 ==> rest[0] != mark,
    ensures
        without_leading(Seq::new(count, |i: int| mark) + rest, mark) == rest,
{
    let s = Seq::new(count, |i: int| mark) + rest;
    lemma_without_leading_at(s, mark, count as int);
    assert(s.skip(count as int) =~= rest);
}

proof fn lemma_words_end(s: Seq<char>)
    requires
        s.len() > 0,
        !is_space(s.last()),
    ensures
        words(s).len() > 0,
    decreases s.len(),
{
}

/// White space parts words: the words on its two sides come one after the other. What holds no
/// white space is one word.
pub proof fn law_words(a: Seq<char>, space: char, b: Seq<char>)
    requires
        is_space(space),
    ensures
        words(a.push(space) + b) == words(a) + words(b),
        words(Seq::<char>::empty()).len() == 0,
        b.len() > 0 && (forall|i: int| 0 <= i < b.len() ==> !is_space(#[trigger] b[i])) ==> words(b)
            == seq![b],
    decreases b.len(),
{
    let s = a.push(space) + b;
    if b.len() == 0 {
        assert(s =~= a.push(space));
        assert(s.drop_last() =~= a);
        assert(words(a) + words(b) =~= words(a));
    } else {
        let rest = b.drop_last();
        law_words(a, space, rest);
        assert(s.drop_last() =~= a.push(space) + rest);
        assert(s.last() == b.last());
        if is_space(b.last()) {
        } else if b.len() >= 2 {
            assert(s[s.len() - 2] == b[b.len() - 2]);
            if !is_space(b[b.len() - 2]) {
                lemma_words_end(rest);
                assert((words(a) + words(rest)).drop_last() =~= words(a) + words(rest).drop_last());
                assert(words(a) + words(rest).drop_last().push(words(rest).last().push(b.last()))
                    =~= (words(a) + words(rest).drop_last()).push(
                    words(rest).last().push(b.last()),
                ));
            } else {
                assert(words(a) + words(rest).push(seq![b.last()]) =~= (words(a) + words(
                    rest,
                )).push(seq![b.last()]));
            }
        } else {
            assert(s[s.len() - 2] == space);
            assert(words(rest) =~= Seq::<Seq<char>>::empty());
            assert(words(b) =~= seq![seq![b.last()]]);
            assert(words(a) + words(b) =~= words(a).push(seq![b.last()]));
        }
        if forall|i: int| 0 <= i < b.len() ==> !is_space(#[trigger] b[i]) {
            assert forall|i: int| 0 <= i < rest.len() implies !is_space(#[trigger] rest[i]) by {
                assert(rest[i] == b[i]);
            }
            assert(!is_space(b[b.len() - 1]));
            if b.len() >= 2 {
                assert(!is_space(b[b.len() - 2]));
                assert(words(b) =~= seq![rest.push(b.last())]);
                assert(rest.push(b.last()) =~= b);
            } else {
                assert(seq![b.last()] =~= b);
                assert(words(b) =~= seq![b]);
            }
        }
    }
}

/// Texts are ordered by the first character in which they differ, and a text comes before every
/// longer one that starts with it.
pub proof fn law_text_less(p: Seq<char>, a: char, b: char, x: Seq<char>, y: Seq<char>)
    ensures
        (a as int) < (b as int) ==> text_less(p.push(a) + x, p.push(b) + y) && !text_less(
            p.push(b) + y,
            p.push(a) + x,
        ),
        text_less(p, p.push(a) + x),
        !text_less(p.push(a) + x, p),
    decreases p.len(),
{
    let u = p.push(a) + x;
    let v = p.push(b) + y;
    if p.len() > 0 {
        law_text_less(p.drop_first(), a, b, x, y);
        assert(u.drop_first() =~= p.drop_first().push(a) + x);
        assert(v.drop_first() =~= p.drop_first().push(b) + y);
        assert(u[0] == p[0] && v[0] == p[0]);
    } else {
        assert(u[0] == a && v[0] == b);
    }
}

/// Numbers are written in decimal: a minus sign before a negative one, one digit for a number under
/// ten, and the last digit behind the others.
pub proof fn law_decimal_digits(n: int)
    ensures
        n < 0 ==> decimal(n) == seq!['-'] + decimal(-n),
        0 <= n < 10 ==> decimal(n).len() == 1 && decimal(n)[0] as int == 48 + n,
        n >= 10 ==> decimal(n) == decimal(n / 10) + decimal(n % 10),
{
    if 0 <= n < 10 {
        assert(((48 + n) as u8) as int == 48 + n);
    }
    if n >= 10 {
        assert(digits((n % 10) as nat) =~= seq![digit_char(n % 10)]);
        assert(digits((n / 10) as nat).push(digit_char(n % 10)) =~= decimal(n / 10) + decimal(
            n % 10,
        ));
    }
}

/// The size of a text is that of its UTF-8 form.
pub proof fn law_byte_len(s: Seq<char>)
    ensures
        byte_len(s) == vstd::utf8::encode_utf8(s).len(),
{
}

/// Of two optional values the first one counts where it is there.
pub proof fn law_first_of<A>(a: A, b: Option<A>)
    ensures
        first_of(Some(a), b) == Some(a),
        first_of(None, b) == b,
{
}

} // verus!
