//! The value tree and its text, both kept by `serde_json`.
//!
//! A `serde_json::Value` cannot be looked into from here. The contracts of
//! this crate speak of the tree that it holds, `json_model`, and every value
//! is made through the functions of this module, which say what tree comes
//! out.

use vstd::prelude::*;

verus! {

/// `serde_json::Value`: a value tree.
#[verifier::external_type_specification]
#[verifier::external_body]
pub struct ExValue(serde_json::Value);

/// `serde_json::Map`: the members of an object.
#[verifier::external_type_specification]
#[verifier::external_body]
#[verifier::reject_recursive_types(K)]
#[verifier::reject_recursive_types(V)]
pub struct ExMap<K, V>(serde_json::Map<K, V>);

/// A number in a value tree.
pub enum JsonNumber {
    /// An integer.
    Integer(int),
    /// A binary floating-point number, named by the 64 bits that hold it.
    Float(int),
}

/// A value tree as contracts see it. The members of an object stand in the
/// order in which their keys first came, and no key comes twice.
pub enum Json {
    Null,
    Bool(bool),
    Number(JsonNumber),
    String(Seq<char>),
    Array(Seq<Json>),
    Object(Seq<(Seq<char>, Json)>),
}

/// The tree that a `serde_json::Value` holds.
pub uninterp spec fn json_model(value: serde_json::Value) -> Json;

/// The members that a map holds, in the order in which it hands them out.
pub uninterp spec fn map_members(map: serde_json::Map<String, serde_json::Value>) -> Seq<
    (Seq<char>, Json),
>;

/// The number that `serde_json::Number` reads `text` as, where it reads it
/// as one.
pub uninterp spec fn number_literal(text: Seq<char>) -> Option<JsonNumber>;

/// The text that `serde_json::to_string` writes for a tree, where it writes
/// one.
pub uninterp spec fn compact_text(value: Json) -> Option<Seq<char>>;

/// The text that `serde_json::to_string_pretty` writes for a tree, where it
/// writes one.
pub uninterp spec fn pretty_text(value: Json) -> Option<Seq<char>>;

/// The trees of a sequence of values, in order.
pub open spec fn models(values: Seq<serde_json::Value>) -> Seq<Json> {
    values.map_values(|value: serde_json::Value| json_model(value))
}

/// Where `key` stands among `members`, or -1 where it does not.
pub open spec fn position(members: Seq<(Seq<char>, Json)>, key: Seq<char>) -> int
    decreases members.len(),
{
    if members.len() == 0 {
        -1
    } else if position(members.drop_last(), key) >= 0 {
        position(members.drop_last(), key)
    } else if members.last().0 == key {
        members.len() - 1
    } else {
        -1
    }
}

/// The members after `key` has been given `value`: a key that is there keeps
/// its place and gets the new value, a new key goes to the end.
pub open spec fn put(members: Seq<(Seq<char>, Json)>, key: Seq<char>, value: Json) -> Seq<
    (Seq<char>, Json),
> {
    let at = position(members, key);
    if 0 <= at < members.len() {
        members.update(at, (key, value))
    } else {
        members.push((key, value))
    }
}

/// Whether no key stands twice among `members`.
pub open spec fn distinct_keys(members: Seq<(Seq<char>, Json)>) -> bool {
    forall|i: int, j: int|
        0 <= i < j < members.len() ==> (#[trigger] members[i]).0 != (#[trigger] members[j]).0
}

/// Where `position` finds a key, the key stands; where it finds none, the
/// key stands nowhere.
pub proof fn lemma_position(members: Seq<(Seq<char>, Json)>, key: Seq<char>)
    ensures
        -1 <= position(members, key) < members.len(),
        position(members, key) >= 0 ==> members[position(members, key)].0 == key,
        position(members, key) < 0 ==> forall|i: int|
            0 <= i < members.len() ==> (#[trigger] members[i]).0 != key,
    decreases members.len(),
{
    if members.len() > 0 {
        let front = members.drop_last();
        lemma_position(front, key);
        if position(members, key) < 0 {
            assert forall|i: int| 0 <= i < members.len() implies (#[trigger] members[i]).0
                != key by {
                if i < front.len() {
                    assert(front[i] == members[i]);
                }
            }
        }
    }
}

/// Giving a key a value keeps the keys apart, and the key then has that
/// value.
pub proof fn lemma_put(members: Seq<(Seq<char>, Json)>, key: Seq<char>, value: Json)
    requires
        distinct_keys(members),
    ensures
        distinct_keys(put(members, key, value)),
        0 <= position(put(members, key, value), key) < put(members, key, value).len(),
        put(members, key, value)[position(put(members, key, value), key)] == (key, value),
        forall|other: Seq<char>|
            other != key && position(members, other) >= 0 ==> position(
                put(members, key, value),
                other,
            ) >= 0 && put(members, key, value)[#[trigger] position(
                put(members, key, value),
                other,
            )] == members[position(members, other)],
{
    let after = put(members, key, value);
    let at = position(members, key);
    lemma_position(members, key);
    lemma_position(after, key);
    if at >= 0 {
        assert(after[at].0 == key);
    }
    assert forall|other: Seq<char>|
        other != key && position(members, other) >= 0 implies position(after, other) >= 0
        && after[#[trigger] position(after, other)] == members[position(members, other)] by {
        lemma_position(members, other);
        lemma_position(after, other);
        assert(after[position(members, other)] == members[position(members, other)]);
    }
}

/// Whether no object in `tree`, at any depth, holds a key twice.
pub open spec fn keys_apart(tree: Json) -> bool
    decreases tree,
{
    match tree {
        Json::Array(items) => forall|i: int|
            0 <= i < items.len() ==> keys_apart(#[trigger] items[i]),
        Json::Object(members) => members_apart(members),
        _ => true,
    }
}

/// Whether no key stands twice among `members`, nor in any object below
/// them.
pub open spec fn members_apart(members: Seq<(Seq<char>, Json)>) -> bool
    decreases members,
{
    &&& distinct_keys(members)
    &&& forall|i: int| 0 <= i < members.len() ==> keys_apart((#[trigger] members[i]).1)
}

/// Giving a key a value keeps all keys apart, where they are apart in the
/// value too.
pub proof fn lemma_put_apart(members: Seq<(Seq<char>, Json)>, key: Seq<char>, value: Json)
    requires
        members_apart(members),
        keys_apart(value),
    ensures
        members_apart(put(members, key, value)),
{
    lemma_put(members, key, value);
}

/// `serde_json::Value::Null`.
#[verifier::external_body]
pub(crate) fn json_null() -> (value: serde_json::Value)
    ensures
        json_model(value) == Json::Null,
{
    serde_json::Value::Null
}

/// `serde_json::Value::Bool` of `b`.
#[verifier::external_body]
pub(crate) fn json_bool(b: bool) -> (value: serde_json::Value)
    ensures
        json_model(value) == Json::Bool(b),
{
    serde_json::Value::Bool(b)
}

/// `serde_json::Value::String` of `text`.
#[verifier::external_body]
pub(crate) fn json_string(text: String) -> (value: serde_json::Value)
    ensures
        json_model(value) == Json::String(text@),
{
    serde_json::Value::String(text)
}

/// `serde_json::Value::Number` of `serde_json::Number::from` of a signed
/// integer: the number `n`.
#[verifier::external_body]
pub(crate) fn json_integer(n: i64) -> (value: serde_json::Value)
    ensures
        json_model(value) == Json::Number(JsonNumber::Integer(n as int)),
{
    serde_json::Value::Number(serde_json::Number::from(n))
}

/// Has `serde_json::Number` read `text` (its `FromStr`), and wraps the number
/// in `serde_json::Value::Number`.
///
/// Whether the text is read as a number, and as which, depends on the text
/// alone. Nothing more is claimed: the number parser of `serde_json` refuses
/// what JSON does not take for a number, and a magnitude that is out of
/// range.
#[verifier::external_body]
pub(crate) fn json_number(text: &str) -> (value: Option<serde_json::Value>)
    ensures
        match value {
            Some(number) => number_literal(text@) is Some && json_model(number) == Json::Number(
                number_literal(text@)->0,
            ),
            None => number_literal(text@) is None,
        },
{
    text.parse::<serde_json::Number>().ok().map(serde_json::Value::Number)
}

/// `serde_json::Value::Array` of `items`, which it keeps in order.
#[verifier::external_body]
pub(crate) fn json_array(items: Vec<serde_json::Value>) -> (value: serde_json::Value)
    ensures
        json_model(value) == Json::Array(models(items@)),
{
    serde_json::Value::Array(items)
}

/// `serde_json::Map::new`: a map without members.
#[verifier::external_body]
pub(crate) fn new_map() -> (map: serde_json::Map<String, serde_json::Value>)
    ensures
        map_members(map) == Seq::<(Seq<char>, Json)>::empty(),
{
    serde_json::Map::new()
}

/// `serde_json::Map::insert` of `value` under `key`.
///
/// Built with its `preserve_order` feature, the map keeps its keys in the
/// order in which they first came. A key that is there keeps its place and
/// has its value replaced; a new key goes to the end. What the call hands
/// back, the value that was replaced, is let go.
#[verifier::external_body]
pub(crate) fn map_insert(
    map: &mut serde_json::Map<String, serde_json::Value>,
    key: String,
    value: serde_json::Value,
)
    ensures
        map_members(*final(map)) == put(map_members(*old(map)), key@, json_model(value)),
{
    map.insert(key, value);
}

/// `serde_json::Value::Object` of `map`, with the members that the map holds.
#[verifier::external_body]
pub(crate) fn json_object(map: serde_json::Map<String, serde_json::Value>) -> (value:
    serde_json::Value)
    ensures
        json_model(value) == Json::Object(map_members(map)),
{
    serde_json::Value::Object(map)
}

/// `serde_json::to_string` of `value`: the tree as compact text, or nothing
/// where writing fails. What is written depends on the tree alone.
#[verifier::external_body]
pub(crate) fn to_compact(value: &serde_json::Value) -> (text: Option<String>)
    ensures
        match text {
            Some(written) => compact_text(json_model(*value)) == Some(written@),
            None => compact_text(json_model(*value)) is None,
        },
{
    serde_json::to_string(value).ok()
}

/// `serde_json::to_string_pretty` of `value`: the tree as indented text, or
/// nothing where writing fails. What is written depends on the tree alone.
#[verifier::external_body]
pub(crate) fn to_pretty(value: &serde_json::Value) -> (text: Option<String>)
    ensures
        match text {
            Some(written) => pretty_text(json_model(*value)) == Some(written@),
            None => pretty_text(json_model(*value)) is None,
        },
{
    serde_json::to_string_pretty(value).ok()
}

} // verus!
