//! Reading a `serde_json::Value` into a generic value tree.
//!
//! The JSON value is opaque to the verifier. What it holds is named by
//! [`json_model`], and a handful of accessors of `serde_json` are taken on
//! trust to report on it; [`from_json`] is proved against them.
use vstd::prelude::*;
use crate::value::{GenericValue, Number, ValueModel, distinct_keys, items_view, members_view};
use crate::native::NativeObject;
use crate::bridge::{convert, native_of};

verus! {

/// `serde_json::Value`, taken as an opaque type.
#[verifier::external_type_specification]
#[verifier::external_body]
pub struct ExJsonValue(serde_json::Value);

/// The tree that a JSON value holds: the members of an object stand in the
/// order in which the object's map hands them out, and a number is given by
/// what `as_i64`, `as_f64` and its decimal text report of it.
pub uninterp spec fn json_model(v: serde_json::Value) -> ValueModel;

/// The trees that a sequence of JSON values holds, in order.
pub open spec fn json_items(items: Seq<serde_json::Value>) -> Seq<ValueModel> {
    Seq::new(items.len(), |i: int| json_model(items[i]))
}

/// The keys and trees that a sequence of borrowed JSON members holds, in order.
pub open spec fn json_members(members: Seq<(&String, &serde_json::Value)>) -> Seq<
    (Seq<char>, ValueModel),
> {
    Seq::new(members.len(), |i: int| (members[i].0@, json_model(*members[i].1)))
}

/// `serde_json::Value::as_bool`: the boolean of a `Bool`, and `None` for
/// every other variant.
#[verifier::external_body]
fn as_bool(v: &serde_json::Value) -> (r: Option<bool>)
    ensures
        match r {
            Some(b) => json_model(*v) == ValueModel::Boolean(b),
            None => !(json_model(*v) is Boolean),
        },
{
    v.as_bool()
}

/// `serde_json::Value::as_str`: the text of a `String`, and `None` for every
/// other variant.
#[verifier::external_body]
fn as_str(v: &serde_json::Value) -> (r: Option<&str>)
    ensures
        match r {
            Some(s) => json_model(*v) == ValueModel::String(s@),
            None => !(json_model(*v) is String),
        },
{
    v.as_str()
}

/// `serde_json::Value::as_number` with `Number`'s `to_string`: the decimal
/// text of a `Number`, and `None` for every other variant.
#[verifier::external_body]
fn number_text(v: &serde_json::Value) -> (r: Option<String>)
    ensures
        match r {
            Some(text) => json_model(*v) is Number && json_model(*v)->Number_0.text == text@,
            None => !(json_model(*v) is Number),
        },
{
    match v.as_number() {
        Some(n) => Some(n.to_string()),
        None => None,
    }
}

/// `serde_json::Value::as_i64`: of a `Number`, the integer where it is one
/// that fits 64 signed bits, and `None` for every other variant.
#[verifier::external_body]
fn as_i64(v: &serde_json::Value) -> (r: Option<i64>)
    ensures
        json_model(*v) is Number ==> r == json_model(*v)->Number_0.int,
        !(json_model(*v) is Number) ==> r is None,
{
    v.as_i64()
}

/// `serde_json::Value::as_f64`, with the float handed out as its bit
/// pattern: of a `Number`, the 64-bit float where it has one, and `None` for
/// every other variant.
#[verifier::external_body]
fn as_float_bits(v: &serde_json::Value) -> (r: Option<u64>)
    ensures
        json_model(*v) is Number ==> r == json_model(*v)->Number_0.float,
        !(json_model(*v) is Number) ==> r is None,
{
    match v.as_f64() {
        Some(x) => Some(x.to_bits()),
        None => None,
    }
}

/// `serde_json::Value::as_array`: the items of an `Array`, and `None` for
/// every other variant.
#[verifier::external_body]
fn as_array(v: &serde_json::Value) -> (r: Option<&Vec<serde_json::Value>>)
    ensures
        match r {
            Some(items) => json_model(*v) == ValueModel::Array(json_items(items@)),
            None => !(json_model(*v) is Array),
        },
{
    v.as_array()
}

/// `serde_json::Value::as_object` with `Map::iter`: the members of an
/// `Object` in the order in which the map hands them out, no key twice, and
/// `None` for every other variant.
#[verifier::external_body]
fn as_members(v: &serde_json::Value) -> (r: Option<Vec<(&String, &serde_json::Value)>>)
    ensures
        match r {
            Some(members) => json_model(*v) == ValueModel::Object(json_members(members@))
                && distinct_keys(json_members(members@)),
            None => !(json_model(*v) is Object),
        },
{
    match v.as_object() {
        Some(map) => Some(map.iter().collect()),
        None => None,
    }
}

/// Reads a JSON value into the generic value tree that it holds. No object
/// of that tree has a key twice.
pub fn from_json(v: &serde_json::Value) -> (value: GenericValue)
    ensures
        value@ == json_model(*v),
        value@.well_formed(),
    decreases json_model(*v),
{
    if let Some(b) = as_bool(v) {
        GenericValue::Boolean(b)
    } else if let Some(s) = as_str(v) {
        GenericValue::String(s.to_owned())
    } else if let Some(text) = number_text(v) {
        GenericValue::Number(Number { int: as_i64(v), float: as_float_bits(v), text })
    } else if let Some(items) = as_array(v) {
        let mut out: Vec<GenericValue> = Vec::new();
        let mut at: usize = 0;
        while at < items.len()
            invariant
                at <= items.len(),
                out@.len() == at,
                json_model(*v) == ValueModel::Array(json_items(items@)),
                forall|i: int|
                    0 <= i < at ==> (#[trigger] out@[i])@ == json_model(items@[i])
                        && out@[i]@.well_formed(),
            decreases items.len() - at,
        {
            proof {
                let ghost whole = json_model(*v);
                assert(whole->Array_0[at as int] == json_model(items@[at as int]));
                assert(decreases_to!(whole => whole->Array_0[at as int]));
            }
            let item = from_json(&items[at]);
            out.push(item);
            at += 1;
        }
        assert(items_view(out@) =~= json_items(items@));
        GenericValue::Array(out)
    } else if let Some(members) = as_members(v) {
        let mut out: Vec<(String, GenericValue)> = Vec::new();
        let mut at: usize = 0;
        while at < members.len()
            invariant
                at <= members.len(),
                out@.len() == at,
                json_model(*v) == ValueModel::Object(json_members(members@)),
                forall|i: int|
                    0 <= i < at ==> (#[trigger] out@[i]).0@ == members@[i].0@ && out@[i].1@
                        == json_model(*members@[i].1) && out@[i].1@.well_formed(),
            decreases members.len() - at,
        {
            proof {
                let ghost whole = json_model(*v);
                assert(whole->Object_0[at as int].1 == json_model(*members@[at as int].1));
                assert(decreases_to!(whole => whole->Object_0[at as int].1));
            }
            let key = members[at].0.clone();
            let item = from_json(members[at].1);
            out.push((key, item));
            at += 1;
        }
        assert(members_view(out@) =~= json_members(members@));
        GenericValue::Object(out)
    } else {
        GenericValue::Null
    }
}

/// Converts a JSON value to the native object tree that stands for the tree
/// it holds.
pub fn json_value_to_native(value: &serde_json::Value) -> (native: NativeObject)
    ensures
        native@ == native_of(json_model(*value)),
        native@.well_formed(),
{
    let tree = from_json(value);
    convert(&tree)
}

} // verus!
