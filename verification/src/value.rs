//! The generic value tree: the tagged union that the formula parser hands out.
use vstd::prelude::*;

verus! {

/// The exponent bits of an IEEE 754 binary64 bit pattern.
pub const EXPONENT_MASK: u64 = 0x7ff0_0000_0000_0000;

/// The bit pattern is that of a finite IEEE 754 binary64 value: neither an
/// infinity nor a NaN, whose exponent bits are all ones.
pub open spec fn finite_bits(bits: u64) -> bool {
    (bits & EXPONENT_MASK) != EXPONENT_MASK
}

/// What a number of the generic tree offers to a reader.
///
/// `int` is the number as an exact 64-bit signed integer, where it is one.
/// `float` is the bit pattern of the number as an IEEE 754 binary64 value,
/// where it has one; a pattern that is not finite counts as none. `text` is
/// the canonical decimal text of the number.
#[derive(Debug, PartialEq, Eq)]
pub struct Number {
    pub int: Option<i64>,
    pub float: Option<u64>,
    pub text: String,
}

/// The mathematical model of a [`Number`].
pub struct NumberModel {
    pub int: Option<i64>,
    pub float: Option<u64>,
    pub text: Seq<char>,
}

impl View for Number {
    type V = NumberModel;

    open spec fn view(&self) -> NumberModel {
        NumberModel { int: self.int, float: self.float, text: self.text@ }
    }
}

/// A node of the generic value tree.
///
/// The items of an `Array` and the members of an `Object` are kept in the
/// order in which the producer of the tree gave them.
#[derive(Debug, PartialEq, Eq)]
pub enum GenericValue {
    Null,
    Boolean(bool),
    Number(Number),
    String(String),
    Array(Vec<GenericValue>),
    Object(Vec<(String, GenericValue)>),
}

/// The mathematical model of a [`GenericValue`]: the same tree over sequences.
pub enum ValueModel {
    Null,
    Boolean(bool),
    Number(NumberModel),
    String(Seq<char>),
    Array(Seq<ValueModel>),
    Object(Seq<(Seq<char>, ValueModel)>),
}

/// The model of a generic value tree, node by node.
pub open spec fn value_model(v: GenericValue) -> ValueModel
    decreases v,
{
    match v {
        GenericValue::Null => ValueModel::Null,
        GenericValue::Boolean(b) => ValueModel::Boolean(b),
        GenericValue::Number(n) => ValueModel::Number(n@),
        GenericValue::String(s) => ValueModel::String(s@),
        GenericValue::Array(items) => ValueModel::Array(items_view(items@)),
        GenericValue::Object(members) => ValueModel::Object(members_view(members@)),
    }
}

/// The models of the items of an array, in order.
pub open spec fn items_view(items: Seq<GenericValue>) -> Seq<ValueModel>
    decreases items,
{
    Seq::new(
        items.len(),
        |i: int|
            if 0 <= i < items.len() {
                value_model(items[i])
            } else {
                ValueModel::Null
            },
    )
}

/// The keys of the members of an object with the models of their values, in
/// order.
pub open spec fn members_view(members: Seq<(String, GenericValue)>) -> Seq<(Seq<char>, ValueModel)>
    decreases members,
{
    Seq::new(
        members.len(),
        |i: int|
            if 0 <= i < members.len() {
                (members[i].0@, value_model(members[i].1))
            } else {
                (Seq::empty(), ValueModel::Null)
            },
    )
}

impl View for GenericValue {
    type V = ValueModel;

    open spec fn view(&self) -> ValueModel {
        value_model(*self)
    }
}

/// No key occurs twice among the members.
pub open spec fn distinct_keys<T>(members: Seq<(Seq<char>, T)>) -> bool {
    forall|i: int, j: int|
        0 <= i < j < members.len() ==> (#[trigger] members[i]).0 != (#[trigger] members[j]).0
}

/// Some member stands under `key`.
pub open spec fn has_key<T>(members: Seq<(Seq<char>, T)>, key: Seq<char>) -> bool {
    exists|i: int| 0 <= i < members.len() && (#[trigger] members[i]).0 == key
}

impl ValueModel {
    /// Every object of the tree has distinct keys.
    pub open spec fn well_formed(self) -> bool
        decreases self,
    {
        match self {
            ValueModel::Array(items) => forall|i: int|
                0 <= i < items.len() ==> (#[trigger] items[i]).well_formed(),
            ValueModel::Object(members) => distinct_keys(members) && forall|i: int|
                0 <= i < members.len() ==> (#[trigger] members[i]).1.well_formed(),
            _ => true,
        }
    }
}

} // verus!
