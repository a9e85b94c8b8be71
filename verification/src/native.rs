//! The native object tree: the host runtime's dynamic values.
use vstd::prelude::*;
use crate::value::{distinct_keys, finite_bits, has_key};

verus! {

/// A dynamic value of the host runtime.
///
/// `Float` holds the bit pattern of a finite IEEE 754 binary64 value. `Dict`
/// is an ordered mapping: its entries stand in the order of their first
/// insertion.
#[derive(Debug, PartialEq, Eq)]
pub enum NativeObject {
    Null,
    Bool(bool),
    Int(i64),
    Float(u64),
    Str(String),
    List(Vec<NativeObject>),
    Dict(Vec<(String, NativeObject)>),
}

/// The mathematical model of a [`NativeObject`].
pub enum NativeModel {
    Null,
    Bool(bool),
    Int(i64),
    Float(u64),
    Str(Seq<char>),
    List(Seq<NativeModel>),
    Dict(Seq<(Seq<char>, NativeModel)>),
}

/// The model of a native object tree, node by node.
pub open spec fn native_model(n: NativeObject) -> NativeModel
    decreases n,
{
    match n {
        NativeObject::Null => NativeModel::Null,
        NativeObject::Bool(b) => NativeModel::Bool(b),
        NativeObject::Int(i) => NativeModel::Int(i),
        NativeObject::Float(bits) => NativeModel::Float(bits),
        NativeObject::Str(s) => NativeModel::Str(s@),
        NativeObject::List(items) => NativeModel::List(list_view(items@)),
        NativeObject::Dict(entries) => NativeModel::Dict(entries_view(entries@)),
    }
}

/// The models of the items of a native list, in order.
pub open spec fn list_view(items: Seq<NativeObject>) -> Seq<NativeModel>
    decreases items,
{
    Seq::new(
        items.len(),
        |i: int|
            if 0 <= i < items.len() {
                native_model(items[i])
            } else {
                NativeModel::Null
            },
    )
}

/// The keys of the entries of a native mapping with the models of their
/// values, in order.
pub open spec fn entries_view(entries: Seq<(String, NativeObject)>) -> Seq<(Seq<char>, NativeModel)>
    decreases entries,
{
    Seq::new(
        entries.len(),
        |i: int|
            if 0 <= i < entries.len() {
                (entries[i].0@, native_model(entries[i].1))
            } else {
                (Seq::empty(), NativeModel::Null)
            },
    )
}

impl View for NativeObject {
    type V = NativeModel;

    open spec fn view(&self) -> NativeModel {
        native_model(*self)
    }
}

impl NativeModel {
    /// No mapping of the tree holds a key twice, and every float of the
    /// tree is finite.
    pub open spec fn well_formed(self) -> bool
        decreases self,
    {
        match self {
            NativeModel::Float(bits) => finite_bits(bits),
            NativeModel::List(items) => forall|i: int|
                0 <= i < items.len() ==> (#[trigger] items[i]).well_formed(),
            NativeModel::Dict(entries) => distinct_keys(entries) && forall|i: int|
                0 <= i < entries.len() ==> (#[trigger] entries[i]).1.well_formed(),
            _ => true,
        }
    }
}

/// The first position at which `key` stands in `entries`, or the length of
/// `entries` where it stands nowhere.
pub open spec fn position_of(entries: Seq<(Seq<char>, NativeModel)>, key: Seq<char>) -> int
    decreases entries.len(),
{
    if entries.len() == 0 {
        0
    } else if entries[0].0 == key {
        0
    } else {
        1 + position_of(entries.subrange(1, entries.len() as int), key)
    }
}

/// What an ordered mapping holds after `value` was put under `key`: a key
/// that is there already keeps its place and gets the new value, a new key
/// goes to the end.
pub open spec fn dict_insert(
    entries: Seq<(Seq<char>, NativeModel)>,
    key: Seq<char>,
    value: NativeModel,
) -> Seq<(Seq<char>, NativeModel)> {
    let at = position_of(entries, key);
    if at < entries.len() {
        entries.update(at, (key, value))
    } else {
        entries.push((key, value))
    }
}

/// The ordered mapping that results from inserting `members` one by one,
/// from the first to the last, into an empty mapping.
pub open spec fn dict_from(members: Seq<(Seq<char>, NativeModel)>) -> Seq<(Seq<char>, NativeModel)>
    decreases members.len(),
{
    if members.len() == 0 {
        Seq::empty()
    } else {
        dict_insert(dict_from(members.drop_last()), members.last().0, members.last().1)
    }
}

/// `position_of` is within bounds, points at the key where it is in bounds,
/// and no earlier entry holds the key.
pub proof fn lemma_position_of(entries: Seq<(Seq<char>, NativeModel)>, key: Seq<char>)
    ensures
        0 <= position_of(entries, key) <= entries.len(),
        position_of(entries, key) < entries.len() ==> entries[position_of(entries, key)].0 == key,
        forall|i: int| 0 <= i < position_of(entries, key) ==> (#[trigger] entries[i]).0 != key,
    decreases entries.len(),
{
    if entries.len() > 0 && entries[0].0 != key {
        let rest = entries.subrange(1, entries.len() as int);
        lemma_position_of(rest, key);
        assert forall|i: int| 0 <= i < position_of(entries, key) implies (#[trigger] entries[i]).0
            != key by {
            if i > 0 {
                assert(entries[i] == rest[i - 1]);
            }
        }
    }
}

/// A scan that met no `key` before `at`, and stopped at `at` on `key` or at the
/// end, has found `position_of`.
pub proof fn lemma_position_found(entries: Seq<(Seq<char>, NativeModel)>, key: Seq<char>, at: int)
    requires
        0 <= at <= entries.len(),
        forall|i: int| 0 <= i < at ==> (#[trigger] entries[i]).0 != key,
        at < entries.len() ==> entries[at].0 == key,
    ensures
        position_of(entries, key) == at,
    decreases entries.len(),
{
    if entries.len() > 0 && entries[0].0 != key {
        let rest = entries.subrange(1, entries.len() as int);
        assert forall|i: int| 0 <= i < at - 1 implies (#[trigger] rest[i]).0 != key by {
            assert(rest[i] == entries[i + 1]);
        }
        lemma_position_found(rest, key, at - 1);
    }
}

/// An insertion keeps the keys distinct, keeps every other entry where it
/// was, and leaves `value` under `key`.
pub proof fn lemma_dict_insert(
    entries: Seq<(Seq<char>, NativeModel)>,
    key: Seq<char>,
    value: NativeModel,
)
    requires
        distinct_keys(entries),
    ensures
        distinct_keys(dict_insert(entries, key, value)),
        entries.len() <= dict_insert(entries, key, value).len() <= entries.len() + 1,
        dict_insert(entries, key, value)[position_of(entries, key)] == (key, value),
        forall|i: int|
            0 <= i < entries.len() && i != position_of(entries, key) ==> #[trigger] dict_insert(
                entries,
                key,
                value,
            )[i] == entries[i],
        forall|i: int|
            0 <= i < entries.len() ==> (#[trigger] dict_insert(entries, key, value)[i]).0
                == entries[i].0,
        dict_insert(entries, key, value).len() == entries.len() <==> has_key(entries, key),
{
    lemma_position_of(entries, key);
    let at = position_of(entries, key);
    let after = dict_insert(entries, key, value);
    assert forall|i: int, j: int| 0 <= i < j < after.len() implies (#[trigger] after[i]).0 != (
    #[trigger] after[j]).0 by {
        if j < entries.len() {
            assert(after[i].0 == entries[i].0);
            assert(after[j].0 == entries[j].0);
        } else {
            assert(after[i] == entries[i]);
        }
    }
    if at < entries.len() {
        assert(entries[at].0 == key);
    } else {
        assert(!has_key(entries, key));
    }
}

/// Puts `value` under `key` into the entries of an ordered mapping.
///
/// A key that the mapping holds already keeps its place and gets the new
/// value; a new key goes to the end.
pub fn insert_entry(entries: &mut Vec<(String, NativeObject)>, key: String, value: NativeObject)
    ensures
        entries_view(final(entries)@) == dict_insert(entries_view(old(entries)@), key@, value@),
        distinct_keys(entries_view(old(entries)@)) ==> distinct_keys(entries_view(final(entries)@)),
{
    let ghost before = entries_view(entries@);
    let mut at: usize = 0;
    while at < entries.len() && entries[at].0 != key
        invariant
            at <= entries.len(),
            before == entries_view(entries@),
            forall|i: int| 0 <= i < at ==> (#[trigger] before[i]).0 != key@,
        decreases entries.len() - at,
    {
        at += 1;
    }
    proof {
        lemma_position_found(before, key@, at as int);
    }
    if at < entries.len() {
        entries.set(at, (key, value));
    } else {
        entries.push((key, value));
    }
    assert(entries_view(entries@) =~= dict_insert(before, key@, value@));
    proof {
        if distinct_keys(before) {
            lemma_dict_insert(before, key@, value@);
        }
    }
}

/// Inserting members whose keys are distinct, in order, gives a mapping that
/// holds exactly those members in that order.
pub proof fn dict_from_distinct(members: Seq<(Seq<char>, NativeModel)>)
    requires
        distinct_keys(members),
    ensures
        dict_from(members) == members,
    decreases members.len(),
{
    if members.len() > 0 {
        let front = members.drop_last();
        assert forall|i: int, j: int| 0 <= i < j < front.len() implies (#[trigger] front[i]).0 != (
        #[trigger] front[j]).0 by {
            assert(front[i] == members[i]);
            assert(front[j] == members[j]);
        }
        dict_from_distinct(front);
        assert forall|i: int| 0 <= i < front.len() implies (#[trigger] front[i]).0
            != members.last().0 by {
            assert(front[i] == members[i]);
            assert(members.last() == members[members.len() - 1]);
        }
        lemma_position_found(front, members.last().0, front.len() as int);
        assert(dict_insert(front, members.last().0, members.last().1) =~= members);
    } else {
        assert(dict_from(members) =~= members);
    }
}

/// Whatever the members are, the mapping that results from inserting them
/// holds no key twice, holds only entries that are among the members, and
/// holds every key of the members.
pub proof fn dict_from_sound(members: Seq<(Seq<char>, NativeModel)>)
    ensures
        distinct_keys(dict_from(members)),
        dict_from(members).len() <= members.len(),
        forall|i: int|
            0 <= i < dict_from(members).len() ==> members.contains(#[trigger] dict_from(members)[i]),
        forall|j: int| 0 <= j < members.len() ==> has_key(dict_from(members), (#[trigger] members[j]).0),
    decreases members.len(),
{
    if members.len() > 0 {
        let front = members.drop_last();
        let last = members.last();
        let before = dict_from(front);
        let after = dict_from(members);
        dict_from_sound(front);
        lemma_dict_insert(before, last.0, last.1);
        lemma_position_of(before, last.0);
        let at = position_of(before, last.0);
        assert(members[members.len() - 1] == last);
        assert forall|i: int| 0 <= i < after.len() implies members.contains(#[trigger] after[i]) by {
            if i == at {
                assert(after[i] == last);
            } else {
                assert(after[i] == before[i]);
                assert(front.contains(before[i]));
                let j = choose|j: int| 0 <= j < front.len() && front[j] == before[i];
                assert(members[j] == front[j]);
            }
        }
        assert forall|j: int| 0 <= j < members.len() implies has_key(
            after,
            (#[trigger] members[j]).0,
        ) by {
            if j == members.len() - 1 {
                assert(after[at].0 == last.0);
            } else {
                assert(front[j] == members[j]);
                assert(has_key(before, front[j].0));
                let i = choose|i: int| 0 <= i < before.len() && (#[trigger] before[i]).0 == front[j].0;
                assert(after[i].0 == before[i].0);
            }
        }
    }
}

} // verus!
