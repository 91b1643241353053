//! JSON values, as far as contact data is read from and written to them.

use crate::text::{ascending, decimal, same_text, signed_text, unsigned_text};
use vstd::prelude::*;

verus! {

/// A JSON number: its value where it is a 64-bit integer, and its text.
#[derive(Debug)]
pub struct JsonNumber {
    pub signed: Option<i64>,
    pub unsigned: Option<u64>,
    pub text: String,
}

/// One member of a JSON object.
#[derive(Debug)]
pub struct JsonMember {
    pub key: String,
    pub value: Json,
}

/// A JSON value.
#[derive(Debug)]
pub enum Json {
    Null,
    Bool(bool),
    Number(JsonNumber),
    Text(String),
    Array(Vec<Json>),
    Object(Vec<JsonMember>),
}

/// The model of a JSON number.
pub ghost struct NumberView {
    pub signed: Option<i64>,
    pub unsigned: Option<u64>,
    pub text: Seq<char>,
}

/// The model of a JSON value.
pub ghost enum JsonView {
    Null,
    Bool(bool),
    Number(NumberView),
    Text(Seq<char>),
    Array(Seq<JsonView>),
    Object(Seq<(Seq<char>, JsonView)>),
}

impl View for JsonNumber {
    type V = NumberView;

    open spec fn view(&self) -> NumberView {
        NumberView { signed: self.signed, unsigned: self.unsigned, text: self.text@ }
    }
}

/// The model of a value.
pub open spec fn json_view(value: Json) -> JsonView
    decreases value,
{
    match value {
        Json::Null => JsonView::Null,
        Json::Bool(flag) => JsonView::Bool(flag),
        Json::Number(number) => JsonView::Number(number@),
        Json::Text(text) => JsonView::Text(text@),
        Json::Array(items) => JsonView::Array(
            Seq::new(
                items@.len(),
                |i: int|
                    if 0 <= i < items@.len() {
                        json_view(items@[i])
                    } else {
                        JsonView::Null
                    },
            ),
        ),
        Json::Object(members) => JsonView::Object(
            Seq::new(
                members@.len(),
                |i: int|
                    if 0 <= i < members@.len() {
                        (members@[i].key@, json_view(members@[i].value))
                    } else {
                        (Seq::empty(), JsonView::Null)
                    },
            ),
        ),
    }
}

impl View for Json {
    type V = JsonView;

    open spec fn view(&self) -> JsonView {
        json_view(*self)
    }
}

/// The value of the first member with a key.
pub open spec fn find_member(members: Seq<(Seq<char>, JsonView)>, key: Seq<char>) -> Option<JsonView>
    decreases members.len(),
{
    if members.len() == 0 {
        None
    } else if members[0].0 == key {
        Some(members[0].1)
    } else {
        find_member(members.drop_first(), key)
    }
}

impl JsonView {
    /// The member of an object under a key.
    pub open spec fn member(self, key: Seq<char>) -> Option<JsonView> {
        match self {
            JsonView::Object(members) => find_member(members, key),
            _ => None,
        }
    }

    pub open spec fn text(self) -> Option<Seq<char>> {
        match self {
            JsonView::Text(text) => Some(text),
            _ => None,
        }
    }

    pub open spec fn flag(self) -> Option<bool> {
        match self {
            JsonView::Bool(flag) => Some(flag),
            _ => None,
        }
    }

    pub open spec fn signed(self) -> Option<i64> {
        match self {
            JsonView::Number(number) => number.signed,
            _ => None,
        }
    }

    pub open spec fn unsigned(self) -> Option<u64> {
        match self {
            JsonView::Number(number) => number.unsigned,
            _ => None,
        }
    }

    pub open spec fn items(self) -> Option<Seq<JsonView>> {
        match self {
            JsonView::Array(items) => Some(items),
            _ => None,
        }
    }

    /// The text under a key, where a text stands there.
    pub open spec fn text_at(self, key: Seq<char>) -> Option<Seq<char>> {
        match self.member(key) {
            Some(value) => value.text(),
            None => None,
        }
    }

    pub open spec fn flag_at(self, key: Seq<char>) -> Option<bool> {
        match self.member(key) {
            Some(value) => value.flag(),
            None => None,
        }
    }

    pub open spec fn signed_at(self, key: Seq<char>) -> Option<i64> {
        match self.member(key) {
            Some(value) => value.signed(),
            None => None,
        }
    }

    pub open spec fn unsigned_at(self, key: Seq<char>) -> Option<u64> {
        match self.member(key) {
            Some(value) => value.unsigned(),
            None => None,
        }
    }
}

/// The model of an integer as a JSON number.
pub open spec fn number_view(n: int) -> JsonView {
    JsonView::Number(
        NumberView {
            signed: if i64::MIN <= n <= i64::MAX {
                Some(n as i64)
            } else {
                None
            },
            unsigned: if 0 <= n <= u64::MAX {
                Some(n as u64)
            } else {
                None
            },
            text: decimal(n),
        },
    )
}

/// The model of a text or of its absence.
pub open spec fn text_or_null(text: Option<Seq<char>>) -> JsonView {
    match text {
        Some(text) => JsonView::Text(text),
        None => JsonView::Null,
    }
}

/// The model of an integer or of its absence.
pub open spec fn number_or_null(n: Option<i64>) -> JsonView {
    match n {
        Some(n) => number_view(n as int),
        None => JsonView::Null,
    }
}

#[verifier::external_type_specification]
#[verifier::external_body]
pub struct ExValue(serde_json::Value);

/// What a `serde_json::Value` holds.
pub uninterp spec fn value_tree(value: serde_json::Value) -> JsonView;

/// What `serde_json::from_str` makes of a text: nothing, where the text is not one JSON value.
pub uninterp spec fn parsed_json(text: Seq<char>) -> Option<JsonView>;

/// `serde_json::from_str` into a `serde_json::Value`. The result depends on the text alone; how a
/// text is read is not stated.
#[verifier::external_body]
fn parse_value(text: &str) -> (r: Option<serde_json::Value>)
    ensures
        match r {
            Some(value) => parsed_json(text@) == Some(value_tree(value)),
            None => parsed_json(text@) is None,
        },
{
    serde_json::from_str::<serde_json::Value>(text).ok()
}

/// Takes a `serde_json::Value` apart, variant for variant, with `Number::as_i64` and
/// `Number::as_u64` for the value of a number.
#[verifier::external_body]
fn json_of_value(value: serde_json::Value) -> (r: Json)
    ensures
        r@ == value_tree(value),
{
    match value {
        serde_json::Value::Null => Json::Null,
        serde_json::Value::Bool(flag) => Json::Bool(flag),
        serde_json::Value::Number(n) => Json::Number(
            JsonNumber { signed: n.as_i64(), unsigned: n.as_u64(), text: n.to_string() },
        ),
        serde_json::Value::String(text) => Json::Text(text),
        serde_json::Value::Array(items) => Json::Array(items.into_iter().map(json_of_value).collect()),
        serde_json::Value::Object(members) => Json::Object(
            members.into_iter().map(|(key, v)| JsonMember { key, value: json_of_value(v) }).collect(),
        ),
    }
}

/// The value is no array and no object, and a number only where it is an integer of at most 64 bits.
pub open spec fn is_scalar(value: JsonView) -> bool {
    match value {
        JsonView::Number(_) => exists|n: int|
            i64::MIN <= n <= u64::MAX && value == #[trigger] number_view(n),
        JsonView::Array(_) => false,
        JsonView::Object(_) => false,
        _ => true,
    }
}

pub open spec fn member_keys(members: Seq<(Seq<char>, JsonView)>) -> Seq<Seq<char>> {
    members.map_values(|member: (Seq<char>, JsonView)| member.0)
}

/// The value is an object of scalars, with its keys in order and none of them twice.
pub open spec fn is_flat_object(value: JsonView) -> bool {
    match value {
        JsonView::Object(members) => ascending(member_keys(members)) && forall|i: int|
            0 <= i < members.len() ==> is_scalar((#[trigger] members[i]).1),
        _ => false,
    }
}

/// Builds a `serde_json::Value`, variant for variant, a number from its text. `serde_json` holds the
/// members of an object in the order of their keys, so an object in that order stays as it is.
#[verifier::external_body]
fn value_of_json(value: &Json) -> (r: serde_json::Value)
    requires
        is_flat_object(value@) || is_scalar(value@),
    ensures
        value_tree(r) == value@,
{
    match value {
        Json::Null => serde_json::Value::Null,
        Json::Bool(flag) => serde_json::Value::Bool(*flag),
        Json::Number(n) => n.text.parse().map_or(serde_json::Value::Null, serde_json::Value::Number),
        Json::Text(text) => serde_json::Value::String(text.clone()),
        Json::Array(items) => serde_json::Value::Array(items.iter().map(value_of_json).collect()),
        Json::Object(members) => serde_json::Value::Object(
            members.iter().map(|m| (m.key.clone(), value_of_json(&m.value))).collect(),
        ),
    }
}

/// The text that `serde_json::to_string_pretty` gives a value, where it gives one.
pub uninterp spec fn pretty_json(tree: JsonView) -> Option<Seq<char>>;

/// `serde_json::to_string_pretty`. The text depends on the value alone; how it is laid out is not
/// stated. An object of scalars has a text, and `serde_json::from_str` reads that object back from
/// it.
#[verifier::external_body]
fn pretty_text(value: &serde_json::Value) -> (r: Option<String>)
    ensures
        match r {
            Some(text) => pretty_json(value_tree(*value)) == Some(text@) && (is_flat_object(
                value_tree(*value),
            ) ==> parsed_json(text@) == Some(value_tree(*value))),
            None => pretty_json(value_tree(*value)) is None && !is_flat_object(value_tree(*value)),
        },
{
    serde_json::to_string_pretty(value).ok()
}

/// Writes an object of scalars. Parsing the text gives the object back.
pub fn flat_object_text(value: &Json) -> (r: String)
    requires
        is_flat_object(value@),
    ensures
        pretty_json(value@) == Some(r@),
        parsed_json(r@) == Some(value@),
{
    match pretty_text(&value_of_json(value)) {
        Some(text) => text,
        // Every such object has a text.
        None => String::new(),
    }
}

/// Parses a JSON text.
pub fn parse_json(text: &str) -> (r: Option<Json>)
    ensures
        match r {
            Some(value) => parsed_json(text@) == Some(value@),
            None => parsed_json(text@) is None,
        },
{
    match parse_value(text) {
        Some(value) => Some(json_of_value(value)),
        None => None,
    }
}

/// Copies a value.
pub fn copy_json(value: &Json) -> (r: Json)
    ensures
        r@ == value@,
    decreases *value,
{
    match value {
        Json::Null => Json::Null,
        Json::Bool(flag) => Json::Bool(*flag),
        Json::Number(number) => Json::Number(
            JsonNumber {
                signed: number.signed,
                unsigned: number.unsigned,
                text: number.text.clone(),
            },
        ),
        Json::Text(text) => Json::Text(text.clone()),
        Json::Array(items) => {
            let mut out: Vec<Json> = Vec::new();
            for i in 0..items.len()
                invariant
                    *value == Json::Array(*items),
                    out@.len() == i,
                    forall|j: int| 0 <= j < i ==> json_view(#[trigger] out@[j]) == json_view(items@[j]),
            {
                assert(decreases_to!(*value => value->Array_0));
                assert(decreases_to!(value->Array_0 => value->Array_0@));
                assert(decreases_to!(value->Array_0@ => value->Array_0@[i as int]));
                out.push(copy_json(&items[i]));
            }
            let r = Json::Array(out);
            assert(r@->Array_0 =~= value@->Array_0);
            r
        },
        Json::Object(members) => {
            let mut out: Vec<JsonMember> = Vec::new();
            for i in 0..members.len()
                invariant
                    *value == Json::Object(*members),
                    out@.len() == i,
                    forall|j: int|
                        0 <= j < i ==> (#[trigger] out@[j]).key@ == members@[j].key@ && json_view(
                            out@[j].value,
                        ) == json_view(members@[j].value),
            {
                assert(decreases_to!(*value => value->Object_0));
                assert(decreases_to!(value->Object_0 => value->Object_0@));
                assert(decreases_to!(value->Object_0@ => value->Object_0@[i as int]));
                assert(decreases_to!(
                    value->Object_0@[i as int] => value->Object_0@[i as int].value
                ));
                out.push(
                    JsonMember {
                        key: members[i].key.clone(),
                        value: copy_json(&members[i].value),
                    },
                );
            }
            let r = Json::Object(out);
            assert(r@->Object_0 =~= value@->Object_0);
            r
        },
    }
}

/// The views of the members of an object.
pub open spec fn members_view(members: Seq<JsonMember>) -> Seq<(Seq<char>, JsonView)> {
    members.map_values(|m: JsonMember| (m.key@, m.value@))
}

impl Json {
    /// The member of an object under a key.
    pub fn get(&self, key: &str) -> (r: Option<&Json>)
        ensures
            match r {
                Some(value) => self@.member(key@) == Some(value@),
                None => self@.member(key@) is None,
            },
    {
        match self {
            Json::Object(members) => {
                let ghost all = self@->Object_0;
                assert(all.skip(0) =~= all);
                for i in 0..members.len()
                    invariant
                        *self == Json::Object(*members),
                        all == self@->Object_0,
                        all.len() == members@.len(),
                        find_member(all, key@) == find_member(all.skip(i as int), key@),
                {
                    assert(all[i as int] == (members@[i as int].key@, members@[i as int].value@));
                    if same_text(members[i].key.as_str(), key) {
                        return Some(&members[i].value);
                    }
                    assert(all.skip(i as int).drop_first() =~= all.skip(i + 1));
                }
                None
            },
            _ => None,
        }
    }

    pub fn as_str(&self) -> (r: Option<&str>)
        ensures
            crate::text::opt_str(r) == self@.text(),
    {
        match self {
            Json::Text(text) => Some(text.as_str()),
            _ => None,
        }
    }

    pub fn as_bool(&self) -> (r: Option<bool>)
        ensures
            r == self@.flag(),
    {
        match self {
            Json::Bool(flag) => Some(*flag),
            _ => None,
        }
    }

    pub fn as_i64(&self) -> (r: Option<i64>)
        ensures
            r == self@.signed(),
    {
        match self {
            Json::Number(number) => number.signed,
            _ => None,
        }
    }

    pub fn as_u64(&self) -> (r: Option<u64>)
        ensures
            r == self@.unsigned(),
    {
        match self {
            Json::Number(number) => number.unsigned,
            _ => None,
        }
    }

    /// The items of an array.
    pub fn as_array(&self) -> (r: Option<&Vec<Json>>)
        ensures
            match r {
                Some(items) => self@.items() == Some(
                    items@.map_values(|item: Json| item@),
                ),
                None => self@.items() is None,
            },
    {
        match self {
            Json::Array(items) => {
                assert(self@->Array_0 =~= items@.map_values(|item: Json| item@));
                Some(items)
            },
            _ => None,
        }
    }

    /// The text under a key, where a text stands there.
    pub fn str_at(&self, key: &str) -> (r: Option<&str>)
        ensures
            crate::text::opt_str(r) == self@.text_at(key@),
    {
        match self.get(key) {
            Some(value) => value.as_str(),
            None => None,
        }
    }

    pub fn bool_at(&self, key: &str) -> (r: Option<bool>)
        ensures
            r == self@.flag_at(key@),
    {
        match self.get(key) {
            Some(value) => value.as_bool(),
            None => None,
        }
    }

    pub fn i64_at(&self, key: &str) -> (r: Option<i64>)
        ensures
            r == self@.signed_at(key@),
    {
        match self.get(key) {
            Some(value) => value.as_i64(),
            None => None,
        }
    }

    pub fn u64_at(&self, key: &str) -> (r: Option<u64>)
        ensures
            r == self@.unsigned_at(key@),
    {
        match self.get(key) {
            Some(value) => value.as_u64(),
            None => None,
        }
    }

    /// A signed integer as a JSON number.
    pub fn of_i64(n: i64) -> (r: Json)
        ensures
            r@ == number_view(n as int),
    {
        Json::Number(
            JsonNumber {
                signed: Some(n),
                unsigned: if n >= 0 {
                    Some(n as u64)
                } else {
                    None
                },
                text: signed_text(n),
            },
        )
    }

    /// A size as a JSON number.
    pub fn of_usize(n: usize) -> (r: Json)
        ensures
            r@ == number_view(n as int),
    {
        Json::Number(
            JsonNumber {
                signed: if n as u64 <= i64::MAX as u64 {
                    Some(n as i64)
                } else {
                    None
                },
                unsigned: Some(n as u64),
                text: unsigned_text(n as u64),
            },
        )
    }

    /// A text, or `null` where there is none.
    pub fn of_text(text: Option<&str>) -> (r: Json)
        ensures
            r@ == text_or_null(crate::text::opt_str(text)),
    {
        match text {
            Some(text) => Json::Text(text.to_owned()),
            None => Json::Null,
        }
    }

    /// An integer, or `null` where there is none.
    pub fn of_number(n: Option<i64>) -> (r: Json)
        ensures
            r@ == number_or_null(n),
    {
        match n {
            Some(n) => Json::of_i64(n),
            None => Json::Null,
        }
    }

    /// An object with the given members.
    pub fn of_members(members: Vec<JsonMember>) -> (r: Json)
        ensures
            r@ == JsonView::Object(members_view(members@)),
    {
        let ghost all = members@;
        let r = Json::Object(members);
        assert(r@->Object_0 =~= members_view(all));
        r
    }
}

/// One member of an object.
pub fn member(key: &str, value: Json) -> (r: JsonMember)
    ensures
        r.key@ == key@,
        r.value == value,
{
    JsonMember { key: key.to_owned(), value }
}

/// A key stands for the first member that has it, and for nothing where no member has.
pub proof fn law_member(members: Seq<(Seq<char>, JsonView)>, key: Seq<char>, k: int)
    requires
        0 <= k <= members.len(),
        forall|j: int| 0 <= j < k ==> (#[trigger] members[j]).0 != key,
        k < members.len() ==> members[k].0 == key,
    ensures
        JsonView::Object(members).member(key) == (if k < members.len() {
            Some(members[k].1)
        } else {
            None
        }),
    decreases members.len(),
{
    if k > 0 {
        let rest = members.drop_first();
        assert(forall|j: int| 0 <= j < rest.len() ==> rest[j] == members[j + 1]);
        assert(members[0].0 != key);
        law_member(rest, key, k - 1);
    }
}

/// Under a key there is a text, a flag or a number exactly where the member is one. What is no object
/// has no members.
pub proof fn law_values_at(
    value: JsonView,
    key: Seq<char>,
    text: Seq<char>,
    flag: bool,
    number: NumberView,
)
    ensures
        value.member(key) == Some(JsonView::Text(text)) <==> value.text_at(key) == Some(text),
        value.member(key) == Some(JsonView::Bool(flag)) <==> value.flag_at(key) == Some(flag),
        value.member(key) == Some(JsonView::Number(number)) ==> value.signed_at(key)
            == number.signed && value.unsigned_at(key) == number.unsigned,
        value.signed_at(key) is Some || value.unsigned_at(key) is Some ==> value.member(key) is Some
            && value.member(key)->0 is Number,
        !(value is Object) ==> value.member(key) is None,
        value is Array ==> value.items() == Some(value->Array_0),
        !(value is Array) ==> value.items() is None,
{
}

/// A number is written with its digits and its value, as far as that fits.
pub proof fn law_number_view(n: int)
    ensures
        ({
            let number = number_view(n)->Number_0;
            &&& number_view(n) is Number
            &&& number.text == decimal(n)
            &&& i64::MIN <= n <= i64::MAX ==> number.signed is Some && number.signed->0 == n
            &&& n < i64::MIN || n > i64::MAX ==> number.signed is None
            &&& 0 <= n <= u64::MAX ==> number.unsigned is Some && number.unsigned->0 == n
            &&& n < 0 || n > u64::MAX ==> number.unsigned is None
        }),
        text_or_null(None) == JsonView::Null,
        text_or_null(Some(decimal(n))) == JsonView::Text(decimal(n)),
        number_or_null(None) == JsonView::Null,
        i64::MIN <= n <= i64::MAX ==> number_or_null(Some(n as i64)) == number_view(n),
{
}

} // verus!
