//! JSON trees as text, by serde_json.

use vstd::prelude::*;

use crate::json::{
    item_values, lemma_list_value, lemma_object_value, member_values, Json, JsonValue,
};

verus! {

/// A JSON value of serde_json.
#[verifier::external_type_specification]
#[verifier::external_body]
pub struct ExValue(serde_json::Value);

/// The value that serde_json makes of what a JSON tree holds.
pub uninterp spec fn serde_value(json: JsonValue) -> serde_json::Value;

/// The text that serde_json writes for what a JSON tree holds, on many lines.
pub uninterp spec fn pretty_text(json: JsonValue) -> Seq<char>;

/// The values that serde_json makes of a list.
pub open spec fn serde_values(items: Seq<JsonValue>) -> Seq<serde_json::Value> {
    items.map_values(|item: JsonValue| serde_value(item))
}

/// The names and values that serde_json makes of members.
pub open spec fn serde_members(members: Seq<(Seq<char>, JsonValue)>) -> Seq<
    (Seq<char>, serde_json::Value),
> {
    members.map_values(|m: (Seq<char>, JsonValue)| (m.0, serde_value(m.1)))
}

/// The names and values of members, the names as texts.
pub open spec fn named_values(members: Seq<(String, serde_json::Value)>) -> Seq<
    (Seq<char>, serde_json::Value),
> {
    members.map_values(|m: (String, serde_json::Value)| (m.0@, m.1))
}

/// Makes a null by `Value::from` of the unit.
#[verifier::external_body]
fn null_value() -> (r: serde_json::Value)
    ensures
        r == serde_value(JsonValue::Null),
{
    serde_json::Value::from(())
}

/// Makes a boolean by `Value::from` of a `bool`.
#[verifier::external_body]
fn bool_value(b: bool) -> (r: serde_json::Value)
    ensures
        r == serde_value(JsonValue::Bool(b)),
{
    serde_json::Value::from(b)
}

/// Makes a number by `Value::from` of a `u64`.
#[verifier::external_body]
fn number_value(n: u64) -> (r: serde_json::Value)
    ensures
        r == serde_value(JsonValue::Number(n as nat)),
{
    serde_json::Value::from(n)
}

/// Makes a string by `Value::from` of a `&str`.
#[verifier::external_body]
fn text_value(s: &str) -> (r: serde_json::Value)
    ensures
        r == serde_value(JsonValue::Text(s@)),
{
    serde_json::Value::from(s)
}

/// Makes an array by `Value::from` of a `Vec`: the value of a list is made of the values
/// of its items, in order.
#[verifier::external_body]
fn list_value(items: Vec<serde_json::Value>) -> (r: serde_json::Value)
    ensures
        forall|list: Seq<JsonValue>|
            serde_values(list) == items@ ==> r == #[trigger] serde_value(JsonValue::List(list)),
{
    serde_json::Value::from(items)
}

/// Makes an object by collecting the members into a `serde_json::Map`: the value of an
/// object is made of the names and values of its members. How the map orders them, and
/// which of two members of one name it keeps, is not stated.
#[verifier::external_body]
fn object_value(members: Vec<(String, serde_json::Value)>) -> (r: serde_json::Value)
    ensures
        forall|object: Seq<(Seq<char>, JsonValue)>|
            serde_members(object) == named_values(members@) ==> r == #[trigger] serde_value(
                JsonValue::Object(object),
            ),
{
    serde_json::Value::Object(members.into_iter().collect())
}

/// Writes a value by `serde_json::to_string_pretty`. It does not fail: a `Value` has only
/// string keys and serializes without errors of its own, and the text is written to
/// memory. The text is named as a function of what the value was made of.
#[verifier::external_body]
fn write_value(value: &serde_json::Value) -> (r: String)
    ensures
        forall|json: JsonValue| #[trigger] serde_value(json) == *value ==> r@ == pretty_text(json),
{
    serde_json::to_string_pretty(value).unwrap()
}

/// Makes the value of a JSON tree.
fn to_value(json: &Json) -> (r: serde_json::Value)
    ensures
        r == serde_value(json@),
    decreases json,
{
    match json {
        Json::Null => null_value(),
        Json::Bool(b) => bool_value(*b),
        Json::Number(n) => number_value(*n),
        Json::Text(s) => text_value(s.as_str()),
        Json::List(items) => {
            let mut values: Vec<serde_json::Value> = Vec::new();
            let mut i: usize = 0;
            while i < items.len()
                invariant
                    i <= items@.len(),
                    *json == Json::List(*items),
                    values@.len() == i,
                    forall|j: int|
                        0 <= j < i ==> #[trigger] values@[j] == serde_value(items@[j]@),
                decreases items@.len() - i,
            {
                proof {
                    assert(decreases_to!(json => json->List_0@[i as int]));
                }
                values.push(to_value(&items[i]));
                i += 1;
            }
            proof {
                assert(serde_values(item_values(items@)) =~= values@);
                lemma_list_value(*items);
            }
            list_value(values)
        },
        Json::Object(members) => {
            let mut values: Vec<(String, serde_json::Value)> = Vec::new();
            let mut i: usize = 0;
            while i < members.len()
                invariant
                    i <= members@.len(),
                    *json == Json::Object(*members),
                    values@.len() == i,
                    forall|j: int|
                        0 <= j < i ==> (#[trigger] values@[j]).0@ == members@[j].0@ && values@[j].1
                            == serde_value(members@[j].1@),
                decreases members@.len() - i,
            {
                proof {
                    assert(decreases_to!(json => json->Object_0@[i as int].1));
                }
                values.push((members[i].0.clone(), to_value(&members[i].1)));
                i += 1;
            }
            proof {
                assert(serde_members(member_values(members@)) =~= named_values(values@));
                lemma_object_value(*members);
            }
            object_value(values)
        },
    }
}

/// Writes a JSON tree, on many lines.
pub fn write_json(json: &Json) -> (r: String)
    ensures
        r@ == pretty_text(json@),
{
    write_value(&to_value(json))
}

} // verus!
