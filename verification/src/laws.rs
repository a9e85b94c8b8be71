//! What holds of the bridge on every tree: shape, order, and the number rule.
use vstd::prelude::*;
use crate::value::{NumberModel, ValueModel, distinct_keys, finite_bits, has_key};
use crate::native::{NativeModel, dict_from, dict_from_distinct, dict_from_sound};
use crate::bridge::{native_of, native_items, native_members};

verus! {

/// The shape of a tree: its nesting, the lengths of its sequences and the
/// keys of its mappings, with every scalar reduced to a leaf.
pub enum Shape {
    Leaf,
    Sequence(Seq<Shape>),
    Mapping(Seq<(Seq<char>, Shape)>),
}

/// The shape of a generic value tree.
pub open spec fn value_shape(v: ValueModel) -> Shape
    decreases v,
{
    match v {
        ValueModel::Array(items) => Shape::Sequence(value_shapes(items)),
        ValueModel::Object(members) => Shape::Mapping(member_shapes(members)),
        _ => Shape::Leaf,
    }
}

/// The shapes of the items of an array, in order.
pub open spec fn value_shapes(items: Seq<ValueModel>) -> Seq<Shape>
    decreases items,
{
    Seq::new(
        items.len(),
        |i: int|
            if 0 <= i < items.len() {
                value_shape(items[i])
            } else {
                Shape::Leaf
            },
    )
}

/// The keys of an object with the shapes of their values, in order.
pub open spec fn member_shapes(members: Seq<(Seq<char>, ValueModel)>) -> Seq<(Seq<char>, Shape)>
    decreases members,
{
    Seq::new(
        members.len(),
        |i: int|
            if 0 <= i < members.len() {
                (members[i].0, value_shape(members[i].1))
            } else {
                (Seq::empty(), Shape::Leaf)
            },
    )
}

/// The shape of a native object tree.
pub open spec fn native_shape(n: NativeModel) -> Shape
    decreases n,
{
    match n {
        NativeModel::List(items) => Shape::Sequence(native_shapes(items)),
        NativeModel::Dict(entries) => Shape::Mapping(entry_shapes(entries)),
        _ => Shape::Leaf,
    }
}

/// The shapes of the items of a native list, in order.
pub open spec fn native_shapes(items: Seq<NativeModel>) -> Seq<Shape>
    decreases items,
{
    Seq::new(
        items.len(),
        |i: int|
            if 0 <= i < items.len() {
                native_shape(items[i])
            } else {
                Shape::Leaf
            },
    )
}

/// The keys of a native mapping with the shapes of their values, in order.
pub open spec fn entry_shapes(entries: Seq<(Seq<char>, NativeModel)>) -> Seq<(Seq<char>, Shape)>
    decreases entries,
{
    Seq::new(
        entries.len(),
        |i: int|
            if 0 <= i < entries.len() {
                (entries[i].0, native_shape(entries[i].1))
            } else {
                (Seq::empty(), Shape::Leaf)
            },
    )
}

/// Order is preserved: the list that stands for an array has the array's
/// length and holds, at each place, what stands for the array's item at that
/// place; the mapping that stands for an object with distinct keys holds the
/// object's keys in the object's order, each with what stands for its value.
pub proof fn order_preserved(v: ValueModel)
    ensures
        v matches ValueModel::Array(items) ==> native_of(v) is List && native_of(v)->List_0.len()
            == items.len() && forall|i: int|
            0 <= i < items.len() ==> (#[trigger] native_of(v)->List_0[i]) == native_of(items[i]),
        v matches ValueModel::Object(members) ==> distinct_keys(members) ==> native_of(v) is Dict
            && native_of(v)->Dict_0.len() == members.len() && forall|i: int|
            0 <= i < members.len() ==> (#[trigger] native_of(v)->Dict_0[i]) == (
                members[i].0,
                native_of(members[i].1),
            ),
{
    match v {
        ValueModel::Object(members) => {
            if distinct_keys(members) {
                let natives = native_members(members);
                assert forall|i: int, j: int| 0 <= i < j < natives.len() implies (
                #[trigger] natives[i]).0 != (#[trigger] natives[j]).0 by {
                    assert(natives[i].0 == members[i].0);
                    assert(natives[j].0 == members[j].0);
                }
                dict_from_distinct(natives);
            }
        },
        _ => {},
    }
}

/// Key sets are preserved: the mapping that stands for an object holds a key
/// if and only if the object does, whatever the object's members.
pub proof fn keys_preserved(members: Seq<(Seq<char>, ValueModel)>, key: Seq<char>)
    ensures
        native_of(ValueModel::Object(members)) is Dict,
        distinct_keys(native_of(ValueModel::Object(members))->Dict_0),
        has_key(native_of(ValueModel::Object(members))->Dict_0, key) <==> has_key(members, key),
{
    let natives = native_members(members);
    let entries = dict_from(natives);
    dict_from_sound(natives);
    if has_key(entries, key) {
        let i = choose|i: int| 0 <= i < entries.len() && (#[trigger] entries[i]).0 == key;
        assert(natives.contains(entries[i]));
        let j = choose|j: int| 0 <= j < natives.len() && natives[j] == entries[i];
        assert(members[j].0 == key);
    }
    if has_key(members, key) {
        let j = choose|j: int| 0 <= j < members.len() && (#[trigger] members[j]).0 == key;
        assert(natives[j].0 == key);
    }
}

/// Shape isomorphism: the native object tree that stands for a tree whose
/// objects have distinct keys has the same shape as that tree.
pub proof fn shape_isomorphism(v: ValueModel)
    requires
        v.well_formed(),
    ensures
        native_shape(native_of(v)) == value_shape(v),
    decreases v,
{
    match v {
        ValueModel::Array(items) => {
            let natives = native_items(items);
            assert forall|i: int| 0 <= i < items.len() implies #[trigger] native_shapes(natives)[i]
                == value_shapes(items)[i] by {
                shape_isomorphism(items[i]);
                assert(natives[i] == native_of(items[i]));
            }
            assert(native_shapes(native_items(items)) =~= value_shapes(items));
        },
        ValueModel::Object(members) => {
            order_preserved(v);
            let natives = native_members(members);
            assert forall|i: int| 0 <= i < members.len() implies #[trigger] entry_shapes(natives)[i]
                == member_shapes(members)[i] by {
                shape_isomorphism(members[i].1);
                assert(natives[i] == (members[i].0, native_of(members[i].1)));
            }
            assert(native_of(v)->Dict_0 =~= native_members(members));
            assert(entry_shapes(native_members(members)) =~= member_shapes(members));
        },
        _ => {},
    }
}

/// The number rule: a number that is an exact 64-bit signed integer becomes
/// that integer; one that is not, but has a finite 64-bit float, becomes that
/// float; every other number becomes its decimal text. So a float that comes
/// out is never an infinity or a NaN.
pub proof fn numeric_fallback(n: NumberModel)
    ensures
        n.int is Some ==> native_of(ValueModel::Number(n)) == NativeModel::Int(n.int->0),
        n.int is None && n.float is Some && finite_bits(n.float->0) ==> native_of(
            ValueModel::Number(n),
        ) == NativeModel::Float(n.float->0),
        n.int is None && !(n.float is Some && finite_bits(n.float->0)) ==> native_of(
            ValueModel::Number(n),
        ) == NativeModel::Str(n.text),
        native_of(ValueModel::Number(n)) matches NativeModel::Float(bits) ==> finite_bits(bits),
{
}

} // verus!
