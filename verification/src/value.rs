//! Host values, as they arrive from the host, and strict values, as a
//! contract takes them.

use vstd::prelude::*;
use crate::address::{Address, AddressModel};
use crate::number::AbiInt;

verus! {

/// A loosely typed value of the host. A number is held as its decimal text,
/// so that no precision is lost; an object is a list of named values in which
/// the first entry of a name is the one that counts.
#[derive(Debug, PartialEq, Eq)]
pub enum HostValue {
    Null,
    Bool(bool),
    Number(String),
    Text(String),
    List(Vec<HostValue>),
    Object(Vec<(String, HostValue)>),
}

/// A `HostValue` as a mathematical value.
pub enum HostModel {
    Null,
    Bool(bool),
    Number(Seq<char>),
    Text(Seq<char>),
    List(Seq<HostModel>),
    Object(Seq<(Seq<char>, HostModel)>),
}

/// The mathematical value of a host value.
pub open spec fn host_model(v: HostValue) -> HostModel
    decreases v,
{
    match v {
        HostValue::Null => HostModel::Null,
        HostValue::Bool(b) => HostModel::Bool(b),
        HostValue::Number(text) => HostModel::Number(text@),
        HostValue::Text(text) => HostModel::Text(text@),
        HostValue::List(items) => HostModel::List(
            Seq::new(
                items@.len(),
                |i: int|
                    if 0 <= i < items@.len() {
                        host_model(items@[i])
                    } else {
                        arbitrary()
                    },
            ),
        ),
        HostValue::Object(entries) => HostModel::Object(
            Seq::new(
                entries@.len(),
                |i: int|
                    if 0 <= i < entries@.len() {
                        (entries@[i].0@, host_model(entries@[i].1))
                    } else {
                        arbitrary()
                    },
            ),
        ),
    }
}

impl View for HostValue {
    type V = HostModel;

    open spec fn view(&self) -> HostModel {
        host_model(*self)
    }
}

/// The entries of an object as mathematical values.
pub open spec fn entries_view(entries: Seq<(String, HostValue)>) -> Seq<(Seq<char>, HostModel)> {
    Seq::new(entries.len(), |i: int| (entries[i].0@, entries[i].1@))
}

/// The items of a list as mathematical values.
pub open spec fn items_view(items: Seq<HostValue>) -> Seq<HostModel> {
    Seq::new(items.len(), |i: int| items[i]@)
}

/// A strictly typed value: one variant for each strict type.
#[derive(Debug, PartialEq, Eq)]
pub enum StrictValue {
    Bool(bool),
    Int(AbiInt),
    VarInt(AbiInt),
    Address(Address),
    Bytes(Vec<u8>),
    FixedBytes(Vec<u8>),
    Text(String),
    Cell(Vec<u8>),
    Mapping(Vec<(StrictValue, StrictValue)>),
    Array(Vec<StrictValue>),
    FixedArray(Vec<StrictValue>),
    Tuple(Vec<(String, StrictValue)>),
    Optional(Option<Box<StrictValue>>),
}

/// A `StrictValue` as a mathematical value.
pub enum ValueModel {
    Bool(bool),
    Int(int),
    VarInt(int),
    Address(AddressModel),
    Bytes(Seq<u8>),
    FixedBytes(Seq<u8>),
    Text(Seq<char>),
    Cell(Seq<u8>),
    Mapping(Seq<(ValueModel, ValueModel)>),
    Array(Seq<ValueModel>),
    FixedArray(Seq<ValueModel>),
    Tuple(Seq<(Seq<char>, ValueModel)>),
    Optional(Option<Box<ValueModel>>),
}

/// The mathematical value of a strict value.
pub open spec fn value_model(v: StrictValue) -> ValueModel
    decreases v,
{
    match v {
        StrictValue::Bool(b) => ValueModel::Bool(b),
        StrictValue::Int(n) => ValueModel::Int(n@),
        StrictValue::VarInt(n) => ValueModel::VarInt(n@),
        StrictValue::Address(a) => ValueModel::Address(a@),
        StrictValue::Bytes(b) => ValueModel::Bytes(b@),
        StrictValue::FixedBytes(b) => ValueModel::FixedBytes(b@),
        StrictValue::Text(text) => ValueModel::Text(text@),
        StrictValue::Cell(b) => ValueModel::Cell(b@),
        StrictValue::Mapping(entries) => ValueModel::Mapping(
            Seq::new(
                entries@.len(),
                |i: int|
                    if 0 <= i < entries@.len() {
                        (value_model(entries@[i].0), value_model(entries@[i].1))
                    } else {
                        arbitrary()
                    },
            ),
        ),
        StrictValue::Array(items) => ValueModel::Array(
            Seq::new(
                items@.len(),
                |i: int|
                    if 0 <= i < items@.len() {
                        value_model(items@[i])
                    } else {
                        arbitrary()
                    },
            ),
        ),
        StrictValue::FixedArray(items) => ValueModel::FixedArray(
            Seq::new(
                items@.len(),
                |i: int|
                    if 0 <= i < items@.len() {
                        value_model(items@[i])
                    } else {
                        arbitrary()
                    },
            ),
        ),
        StrictValue::Tuple(fields) => ValueModel::Tuple(
            Seq::new(
                fields@.len(),
                |i: int|
                    if 0 <= i < fields@.len() {
                        (fields@[i].0@, value_model(fields@[i].1))
                    } else {
                        arbitrary()
                    },
            ),
        ),
        StrictValue::Optional(inner) => match inner {
            None => ValueModel::Optional(None),
            Some(value) => ValueModel::Optional(Some(Box::new(value_model(*value)))),
        },
    }
}

impl View for StrictValue {
    type V = ValueModel;

    open spec fn view(&self) -> ValueModel {
        value_model(*self)
    }
}

/// The values of a list as mathematical values.
pub open spec fn values_view(values: Seq<StrictValue>) -> Seq<ValueModel> {
    Seq::new(values.len(), |i: int| values[i]@)
}

/// The named values of a list as mathematical values.
pub open spec fn fields_view(fields: Seq<(String, StrictValue)>) -> Seq<(Seq<char>, ValueModel)> {
    Seq::new(fields.len(), |i: int| (fields[i].0@, fields[i].1@))
}

/// The entries of a map as mathematical values.
pub open spec fn pairs_view(entries: Seq<(StrictValue, StrictValue)>) -> Seq<
    (ValueModel, ValueModel),
> {
    Seq::new(entries.len(), |i: int| (entries[i].0@, entries[i].1@))
}

/// The view of a list is the list of the views of its items.
pub proof fn lemma_list_view(items: Vec<HostValue>)
    ensures
        HostValue::List(items)@ == HostModel::List(items_view(items@)),
{
    assert(HostValue::List(items)@->List_0 =~= items_view(items@));
}

/// The view of an object is the list of the views of its entries.
pub proof fn lemma_object_view(entries: Vec<(String, HostValue)>)
    ensures
        HostValue::Object(entries)@ == HostModel::Object(entries_view(entries@)),
{
    assert(HostValue::Object(entries)@->Object_0 =~= entries_view(entries@));
}

/// The view of an array, fixed or not, is the list of the views of its
/// items.
pub proof fn lemma_array_view(values: Vec<StrictValue>)
    ensures
        StrictValue::Array(values)@ == ValueModel::Array(values_view(values@)),
        StrictValue::FixedArray(values)@ == ValueModel::FixedArray(values_view(values@)),
{
    assert(StrictValue::Array(values)@->Array_0 =~= values_view(values@));
    assert(StrictValue::FixedArray(values)@->FixedArray_0 =~= values_view(values@));
}

/// The view of a tuple is the list of the views of its fields.
pub proof fn lemma_tuple_view(fields: Vec<(String, StrictValue)>)
    ensures
        StrictValue::Tuple(fields)@ == ValueModel::Tuple(fields_view(fields@)),
{
    assert(StrictValue::Tuple(fields)@->Tuple_0 =~= fields_view(fields@));
}

/// The view of a map is the list of the views of its entries.
pub proof fn lemma_mapping_view(pairs: Vec<(StrictValue, StrictValue)>)
    ensures
        StrictValue::Mapping(pairs)@ == ValueModel::Mapping(pairs_view(pairs@)),
{
    assert(StrictValue::Mapping(pairs)@->Mapping_0 =~= pairs_view(pairs@));
}

/// Whether no two entries of a list of entries have the same name.
pub open spec fn distinct_names(entries: Seq<(Seq<char>, HostModel)>) -> bool {
    forall|i: int, j: int|
        0 <= i < j < entries.len() ==> (#[trigger] entries[i]).0 != (#[trigger] entries[j]).0
}

/// Whether a host value is well formed: in it and in every value inside it,
/// no two entries of an object have the same name, as in a map.
pub open spec fn host_wf(h: HostModel) -> bool
    decreases h,
{
    match h {
        HostModel::List(items) => forall|i: int|
            0 <= i < items.len() ==> host_wf(#[trigger] items[i]),
        HostModel::Object(entries) => distinct_names(entries) && forall|i: int|
            0 <= i < entries.len() ==> host_wf((#[trigger] entries[i]).1),
        _ => true,
    }
}

/// Whether the name of entry `i` differs from the names of all the entries
/// before it.
fn entry_name_is_new(entries: &Vec<(String, HostValue)>, i: usize) -> (r: bool)
    requires
        i < entries.len(),
    ensures
        r == (forall|j: int| 0 <= j < i ==> (#[trigger] entries@[j]).0@ != entries@[i as int].0@),
{
    let mut j: usize = 0;
    while j < i
        invariant
            j <= i < entries.len(),
            forall|m: int| 0 <= m < j ==> (#[trigger] entries@[m]).0@ != entries@[i as int].0@,
        decreases i - j,
    {
        if entries[j].0 == entries[i].0 {
            return false;
        }
        j = j + 1;
    }
    true
}

impl HostValue {
    /// Whether the value is well formed: no object in it has two entries of
    /// one name.
    #[verifier::loop_isolation(false)]
    pub fn is_well_formed(&self) -> (r: bool)
        ensures
            r == host_wf(self@),
        decreases self,
    {
        match self {
            HostValue::List(items) => {
                proof {
                    lemma_list_view(*items);
                }
                let mut i: usize = 0;
                while i < items.len()
                    invariant
                        i <= items.len(),
                        forall|j: int| 0 <= j < i ==> host_wf((#[trigger] items@[j])@),
                    decreases items.len() - i,
                {
                    if !items[i].is_well_formed() {
                        proof {
                            let model = items_view(items@);
                            assert(self@ == HostModel::List(model));
                            assert(model[i as int] == items@[i as int]@);
                            assert(!host_wf(model[i as int]));
                            assert(self@->List_0[i as int] == model[i as int]);
                        }
                        return false;
                    }
                    i = i + 1;
                }
                assert forall|j: int| 0 <= j < self@->List_0.len() implies host_wf(
                    #[trigger] self@->List_0[j],
                ) by {
                    assert(host_wf(items@[j]@));
                }
                true
            },
            HostValue::Object(entries) => {
                proof {
                    lemma_object_view(*entries);
                }
                let ghost model = entries_view(entries@);
                let mut i: usize = 0;
                while i < entries.len()
                    invariant
                        i <= entries.len(),
                        forall|a: int, b: int|
                            0 <= a < b < i ==> (#[trigger] model[a]).0 != (#[trigger] model[b]).0,
                        forall|j: int| 0 <= j < i ==> host_wf((#[trigger] model[j]).1),
                    decreases entries.len() - i,
                {
                    if !entry_name_is_new(entries, i) {
                        proof {
                            let j = choose|j: int|
                                0 <= j < i && (#[trigger] entries@[j]).0@ == entries@[i as int].0@;
                            assert(model[j].0 == model[i as int].0);
                            assert(self@->Object_0 == model);
                        }
                        return false;
                    }
                    if !entries[i].1.is_well_formed() {
                        proof {
                            assert(!host_wf(model[i as int].1));
                            assert(self@->Object_0[i as int] == model[i as int]);
                        }
                        return false;
                    }
                    proof {
                        assert forall|a: int, b: int| 0 <= a < b < i + 1 implies (#[trigger] model[a]).0
                            != (#[trigger] model[b]).0 by {
                            if b == i {
                                assert(entries@[a].0@ != entries@[i as int].0@);
                            }
                        }
                    }
                    i = i + 1;
                }
                assert(self@->Object_0 == model);
                true
            },
            _ => true,
        }
    }

    /// A copy of the value.
    #[verifier::loop_isolation(false)]
    pub fn duplicate(&self) -> (r: HostValue)
        ensures
            r@ == self@,
        decreases self,
    {
        match self {
            HostValue::Null => HostValue::Null,
            HostValue::Bool(b) => HostValue::Bool(*b),
            HostValue::Number(text) => HostValue::Number(text.clone()),
            HostValue::Text(text) => HostValue::Text(text.clone()),
            HostValue::List(items) => {
                let mut copy: Vec<HostValue> = Vec::new();
                let mut i: usize = 0;
                while i < items.len()
                    invariant
                        i <= items.len(),
                        copy@.len() == i,
                        forall|j: int| 0 <= j < i ==> (#[trigger] copy@[j])@ == items@[j]@,
                    decreases items.len() - i,
                {
                    let item = items[i].duplicate();
                    copy.push(item);
                    i = i + 1;
                }
                proof {
                    lemma_list_view(copy);
                    lemma_list_view(*items);
                    assert(items_view(copy@) =~= items_view(items@));
                }
                HostValue::List(copy)
            },
            HostValue::Object(entries) => {
                let mut copy: Vec<(String, HostValue)> = Vec::new();
                let mut i: usize = 0;
                while i < entries.len()
                    invariant
                        i <= entries.len(),
                        copy@.len() == i,
                        forall|j: int|
                            0 <= j < i ==> (#[trigger] copy@[j]).0@ == entries@[j].0@
                                && copy@[j].1@ == entries@[j].1@,
                    decreases entries.len() - i,
                {
                    let value = entries[i].1.duplicate();
                    copy.push((entries[i].0.clone(), value));
                    i = i + 1;
                }
                proof {
                    lemma_object_view(copy);
                    lemma_object_view(*entries);
                    assert(entries_view(copy@) =~= entries_view(entries@));
                }
                HostValue::Object(copy)
            },
        }
    }
}

} // verus!
