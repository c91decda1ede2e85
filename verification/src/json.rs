//! JSON values: a mathematical model, and the `serde_json` calls that build
//! and read values, each with what it does in terms of that model.

use serde_json::Value;
use vstd::prelude::*;

verus! {

/// What a JSON value says. The order of an object's keys is not part of it.
pub enum Json {
    Null,
    Bool(bool),
    /// An integer.
    Int(int),
    /// A floating-point number; which one is not modelled.
    Float,
    Str(Seq<char>),
    Arr(Seq<Json>),
    Obj(Map<Seq<char>, Json>),
}

/// `serde_json::Value`, a JSON value of any kind.
#[verifier::external_type_specification]
#[verifier::external_body]
pub struct ExValue(serde_json::Value);

/// `serde_json::Map`, a JSON object.
#[verifier::external_type_specification]
#[verifier::external_body]
#[verifier::reject_recursive_types(K)]
#[verifier::reject_recursive_types(V)]
pub struct ExMap<K, V>(serde_json::Map<K, V>);

/// What a `serde_json::Value` holds.
pub uninterp spec fn json_of(v: serde_json::Value) -> Json;

/// The keys of a JSON object, each with what its value holds.
pub uninterp spec fn entries_of(m: serde_json::Map<String, serde_json::Value>) -> Map<Seq<char>, Json>;

/// What each of a sequence of values holds.
pub open spec fn json_seq(s: Seq<serde_json::Value>) -> Seq<Json> {
    s.map_values(|v: serde_json::Value| json_of(v))
}

/// What each of a sequence of objects holds.
pub open spec fn entries_seq(s: Seq<serde_json::Map<String, serde_json::Value>>) -> Seq<
    Map<Seq<char>, Json>,
> {
    s.map_values(|m: serde_json::Map<String, serde_json::Value>| entries_of(m))
}

/// The object that has the keys for which `field` gives a value, with these
/// values.
pub open spec fn object_with(field: spec_fn(Seq<char>) -> Option<Json>) -> Map<Seq<char>, Json> {
    Map::new(|key: Seq<char>| field(key) is Some, |key: Seq<char>| field(key)->0)
}

/// The contents of an object without keys.
pub open spec fn no_entries() -> Map<Seq<char>, Json> {
    Map::empty()
}

/// `serde_json::Map::new`: an object without keys.
#[verifier::external_body]
pub(crate) fn new_object() -> (m: serde_json::Map<String, Value>)
    ensures
        entries_of(m) == no_entries(),
{
    serde_json::Map::new()
}

/// `serde_json::Map::insert`: the key then has this value, whether it was there
/// before or not; every other key keeps its own. The value that the key had
/// before, if any, is returned.
#[verifier::external_body]
pub(crate) fn insert(m: &mut serde_json::Map<String, Value>, key: String, v: Value) -> (before: Option<Value>)
    ensures
        entries_of(*final(m)) == entries_of(*old(m)).insert(key@, json_of(v)),
        before is Some <==> entries_of(*old(m)).contains_key(key@),
        before is Some ==> json_of(before->0) == entries_of(*old(m))[key@],
{
    m.insert(key, v)
}

/// `serde_json::Map::get`: the value of a key, if the object has the key.
#[verifier::external_body]
pub(crate) fn get<'a>(m: &'a serde_json::Map<String, Value>, key: &str) -> (v: Option<&'a Value>)
    ensures
        v is Some <==> entries_of(*m).contains_key(key@),
        v is Some ==> json_of(*v->0) == entries_of(*m)[key@],
{
    m.get(key)
}

/// `serde_json::Value::Null`.
#[verifier::external_body]
pub(crate) fn null() -> (v: Value)
    ensures
        json_of(v) == Json::Null,
{
    Value::Null
}

/// `serde_json::Value::Bool`: the value that holds this flag.
#[verifier::external_body]
pub(crate) fn boolean(b: bool) -> (v: Value)
    ensures
        json_of(v) == Json::Bool(b),
{
    Value::Bool(b)
}

/// `serde_json::Value::from` of an `i64`: the value that holds this number.
#[verifier::external_body]
pub(crate) fn integer(n: i64) -> (v: Value)
    ensures
        json_of(v) == Json::Int(n as int),
{
    Value::from(n)
}

/// `serde_json::Value::from` of a `usize`: the value that holds this number.
#[verifier::external_body]
pub(crate) fn count(n: usize) -> (v: Value)
    ensures
        json_of(v) == Json::Int(n as int),
{
    Value::from(n)
}

/// `serde_json::Value::String`: the value that holds this text.
#[verifier::external_body]
pub(crate) fn string(s: String) -> (v: Value)
    ensures
        json_of(v) == Json::Str(s@),
{
    Value::String(s)
}

/// `serde_json::Value::Array`: the value that holds these values, in this order.
#[verifier::external_body]
pub(crate) fn array(items: Vec<Value>) -> (v: Value)
    ensures
        json_of(v) == Json::Arr(json_seq(items@)),
{
    Value::Array(items)
}

/// `serde_json::Value::Object`: the value that holds this object.
#[verifier::external_body]
pub(crate) fn object(m: serde_json::Map<String, Value>) -> (v: Value)
    ensures
        json_of(v) == Json::Obj(entries_of(m)),
{
    Value::Object(m)
}

/// `serde_json::Value::as_str`: the text of a value that holds a text, and
/// nothing for any other value.
#[verifier::external_body]
pub(crate) fn as_str(v: &Value) -> (s: Option<&str>)
    ensures
        s is Some <==> json_of(*v) is Str,
        s is Some ==> json_of(*v) == Json::Str(s->0@),
{
    v.as_str()
}

/// `serde_json::Value::to_string` of a value that holds an integer: its decimal
/// digits, with a minus sign before them if it is negative.
#[verifier::external_body]
pub(crate) fn integer_to_string(v: &Value) -> (s: String)
    requires
        json_of(*v) is Int,
    ensures
        s@ == crate::text::decimal(json_of(*v)->Int_0),
{
    v.to_string()
}

/// What a sequence of values or of objects holds is what each of them holds, in
/// their order; an object without keys has none.
pub proof fn law_each_holds_its_own(
    values: Seq<serde_json::Value>,
    objects: Seq<serde_json::Map<String, serde_json::Value>>,
    key: Seq<char>,
)
    ensures
        json_seq(values).len() == values.len(),
        forall|i: int| 0 <= i < values.len() ==> #[trigger] json_seq(values)[i] == json_of(values[i]),
        entries_seq(objects).len() == objects.len(),
        forall|i: int|
            0 <= i < objects.len() ==> #[trigger] entries_seq(objects)[i] == entries_of(objects[i]),
        !no_entries().contains_key(key),
{
}

} // verus!
