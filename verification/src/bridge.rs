//! The value bridge: from a generic value tree to a native object tree.
use vstd::prelude::*;
use crate::value::{
    GenericValue, Number, NumberModel, ValueModel, EXPONENT_MASK, finite_bits, items_view,
    members_view,
};
use crate::native::{
    NativeObject, NativeModel, dict_from, dict_from_sound, entries_view, insert_entry, list_view,
};

verus! {

/// The native object that stands for a number: the integer where there is
/// one, else the float where there is a finite one, else the decimal text.
pub open spec fn number_native(n: NumberModel) -> NativeModel {
    match n.int {
        Some(i) => NativeModel::Int(i),
        None => match n.float {
            Some(bits) => if finite_bits(bits) {
                NativeModel::Float(bits)
            } else {
                NativeModel::Str(n.text)
            },
            None => NativeModel::Str(n.text),
        },
    }
}

/// The native object tree that stands for a generic value tree.
///
/// An array becomes a list of the same length, item by item. An object
/// becomes the ordered mapping that results from inserting its members in
/// order; should a key occur twice, the later value replaces the earlier one
/// at the earlier one's place.
pub open spec fn native_of(v: ValueModel) -> NativeModel
    decreases v,
{
    match v {
        ValueModel::Null => NativeModel::Null,
        ValueModel::Boolean(b) => NativeModel::Bool(b),
        ValueModel::Number(n) => number_native(n),
        ValueModel::String(s) => NativeModel::Str(s),
        ValueModel::Array(items) => NativeModel::List(native_items(items)),
        ValueModel::Object(members) => NativeModel::Dict(dict_from(native_members(members))),
    }
}

/// The items of an array, each replaced by its native object.
pub open spec fn native_items(items: Seq<ValueModel>) -> Seq<NativeModel>
    decreases items,
{
    Seq::new(
        items.len(),
        |i: int|
            if 0 <= i < items.len() {
                native_of(items[i])
            } else {
                NativeModel::Null
            },
    )
}

/// The members of an object, each value replaced by its native object.
pub open spec fn native_members(members: Seq<(Seq<char>, ValueModel)>) -> Seq<
    (Seq<char>, NativeModel),
>
    decreases members,
{
    Seq::new(
        members.len(),
        |i: int|
            if 0 <= i < members.len() {
                (members[i].0, native_of(members[i].1))
            } else {
                (Seq::empty(), NativeModel::Null)
            },
    )
}

/// Converts a number by the three-tier rule: integer, else finite float,
/// else text.
pub fn convert_number(n: &Number) -> (native: NativeObject)
    ensures
        native@ == number_native(n@),
{
    match n.int {
        Some(i) => NativeObject::Int(i),
        None => match n.float {
            Some(bits) => if (bits & EXPONENT_MASK) != EXPONENT_MASK {
                NativeObject::Float(bits)
            } else {
                NativeObject::Str(n.text.clone())
            },
            None => NativeObject::Str(n.text.clone()),
        },
    }
}

/// Converts a generic value tree to the native object tree that stands for it.
pub fn convert(value: &GenericValue) -> (native: NativeObject)
    ensures
        native@ == native_of(value@),
        native@.well_formed(),
    decreases value,
{
    proof {
        native_of_well_formed(value@);
    }
    match value {
        GenericValue::Null => NativeObject::Null,
        GenericValue::Boolean(b) => NativeObject::Bool(*b),
        GenericValue::Number(n) => convert_number(n),
        GenericValue::String(s) => NativeObject::Str(s.clone()),
        GenericValue::Array(items) => {
            let list = convert_items(items);
            NativeObject::List(list)
        },
        GenericValue::Object(members) => {
            let entries = convert_members(members);
            NativeObject::Dict(entries)
        },
    }
}

/// Converts the items of an array, one by one and in order.
pub fn convert_items(items: &Vec<GenericValue>) -> (list: Vec<NativeObject>)
    ensures
        list_view(list@) == native_items(items_view(items@)),
    decreases items,
{
    let mut list: Vec<NativeObject> = Vec::new();
    let mut at: usize = 0;
    while at < items.len()
        invariant
            at <= items.len(),
            list@.len() == at,
            forall|i: int| 0 <= i < at ==> (#[trigger] list@[i])@ == native_of(items@[i]@),
        decreases items.len() - at,
    {
        let native = convert(&items[at]);
        list.push(native);
        at += 1;
    }
    assert(list_view(list@) =~= native_items(items_view(items@)));
    list
}

/// Converts the members of an object and inserts them, in order, into an
/// ordered mapping that starts empty.
pub fn convert_members(members: &Vec<(String, GenericValue)>) -> (entries: Vec<
    (String, NativeObject),
>)
    ensures
        entries_view(entries@) == dict_from(native_members(members_view(members@))),
    decreases members,
{
    let ghost source = native_members(members_view(members@));
    let mut entries: Vec<(String, NativeObject)> = Vec::new();
    let mut at: usize = 0;
    assert(entries_view(entries@) =~= dict_from(source.subrange(0, 0)));
    while at < members.len()
        invariant
            at <= members.len(),
            source == native_members(members_view(members@)),
            entries_view(entries@) == dict_from(source.subrange(0, at as int)),
        decreases members.len() - at,
    {
        let native = convert(&members[at].1);
        let key = members[at].0.clone();
        insert_entry(&mut entries, key, native);
        proof {
            let upto = source.subrange(0, at + 1);
            assert(upto.drop_last() =~= source.subrange(0, at as int));
            assert(upto.last() == (members@[at as int].0@, native_of(members@[at as int].1@)));
        }
        at += 1;
    }
    assert(source.subrange(0, at as int) =~= source);
    entries
}

/// The native object tree that stands for a tree holds no key twice in any
/// of its mappings and no float that is not finite, whatever the tree.
pub proof fn native_of_well_formed(v: ValueModel)
    ensures
        native_of(v).well_formed(),
    decreases v,
{
    match v {
        ValueModel::Array(items) => {
            let natives = native_items(items);
            assert forall|i: int| 0 <= i < natives.len() implies (#[trigger] natives[i]).well_formed() by {
                native_of_well_formed(items[i]);
            }
        },
        ValueModel::Object(members) => {
            let natives = native_members(members);
            let entries = dict_from(natives);
            dict_from_sound(natives);
            assert forall|i: int| 0 <= i < entries.len() implies (#[trigger] entries[i]).1.well_formed() by {
                assert(natives.contains(entries[i]));
                let j = choose|j: int| 0 <= j < natives.len() && natives[j] == entries[i];
                native_of_well_formed(members[j].1);
            }
        },
        _ => {},
    }
}

} // verus!
