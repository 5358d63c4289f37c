//! The structured codec: host values against strict types, and back.

use vstd::prelude::*;
use crate::address::address_text;
use crate::error::{result_view, BridgeError, ErrorModel};
use crate::number::decimal_text;
use crate::scalar::{decode_scalar, decoded_scalar, encode_scalar, encoded_scalar, scalar_reads_back};
use crate::text::bytes_equal;
use crate::types::{Param, ParamModel, ParameterSchema, StrictType, TypeModel};
use crate::value::{entries_view, fields_view, items_view, lemma_array_view, lemma_list_view, lemma_mapping_view, lemma_object_view, lemma_tuple_view, pairs_view, values_view, HostModel, HostValue, StrictValue, ValueModel};

verus! {

/// Gathers results in order: all the values where every result is one, the
/// first error otherwise.
pub open spec fn collect<T>(results: Seq<Result<T, ErrorModel>>) -> Result<Seq<T>, ErrorModel>
    decreases results.len(),
{
    if results.len() == 0 {
        Ok(Seq::empty())
    } else {
        match collect(results.drop_last()) {
            Err(e) => Err(e),
            Ok(values) => match results.last() {
                Err(e) => Err(e),
                Ok(v) => Ok(values.push(v)),
            },
        }
    }
}

/// Whether entry `i` is the first entry of the given name.
pub open spec fn is_first_entry(
    entries: Seq<(Seq<char>, HostModel)>,
    name: Seq<char>,
    i: int,
) -> bool {
    &&& 0 <= i < entries.len()
    &&& entries[i].0 == name
    &&& forall|j: int| 0 <= j < i ==> (#[trigger] entries[j]).0 != name
}

/// The value of the first entry of the given name, if there is one.
pub open spec fn lookup(entries: Seq<(Seq<char>, HostModel)>, name: Seq<char>) -> Option<
    HostModel,
> {
    if exists|i: int| is_first_entry(entries, name, i) {
        Some(entries[choose|i: int| is_first_entry(entries, name, i)].1)
    } else {
        None
    }
}

/// The strict value that a host value gives to a type.
///
/// A scalar type converts as `encoded_scalar` says. An array takes a list
/// and converts its items in order; a fixed array first holds the list's
/// length against its own, which is a `LengthMismatch` where they differ. A
/// tuple takes an object and converts the named entry of each of its
/// parameters, in the tuple's order. A map whose keys are integers or
/// addresses takes an object and converts each entry's name as a key and its
/// value as a value, in the object's order. An optional takes null as the
/// absent value and any other host value as its inner type does. The first
/// error in that order is the result.
pub open spec fn encoded_value(ty: TypeModel, host: HostModel) -> Result<ValueModel, ErrorModel>
    decreases ty, 2nat,
{
    match ty {
        TypeModel::Array(item) => match host {
            HostModel::List(items) => match collect(item_results(*item, items)) {
                Ok(values) => Ok(ValueModel::Array(values)),
                Err(e) => Err(e),
            },
            _ => Err(ErrorModel::TypeMismatch),
        },
        TypeModel::FixedArray(item, n) => match host {
            HostModel::List(items) => if items.len() != n {
                Err(ErrorModel::LengthMismatch)
            } else {
                match collect(item_results(*item, items)) {
                    Ok(values) => Ok(ValueModel::FixedArray(values)),
                    Err(e) => Err(e),
                }
            },
            _ => Err(ErrorModel::TypeMismatch),
        },
        TypeModel::Tuple(_) => match host {
            HostModel::Object(entries) => match collect(field_results(ty, entries)) {
                Ok(fields) => Ok(ValueModel::Tuple(fields)),
                Err(e) => Err(e),
            },
            _ => Err(ErrorModel::TypeMismatch),
        },
        TypeModel::Mapping(key, _) => match host {
            HostModel::Object(entries) => if !key.is_key() {
                Err(ErrorModel::TypeMismatch)
            } else {
                match collect(entry_results(ty, entries)) {
                    Ok(pairs) => Ok(ValueModel::Mapping(pairs)),
                    Err(e) => Err(e),
                }
            },
            _ => Err(ErrorModel::TypeMismatch),
        },
        TypeModel::Optional(inner) => match host {
            HostModel::Null => Ok(ValueModel::Optional(None)),
            _ => match encoded_value(*inner, host) {
                Ok(v) => Ok(ValueModel::Optional(Some(Box::new(v)))),
                Err(e) => Err(e),
            },
        },
        _ => encoded_scalar(ty, host),
    }
}

/// What each item of a list gives to the type of the items.
pub open spec fn item_results(item: TypeModel, items: Seq<HostModel>) -> Seq<
    Result<ValueModel, ErrorModel>,
>
    decreases item, 3nat,
{
    Seq::new(items.len(), |i: int| encoded_value(item, items[i]))
}

/// What an object gives to each parameter of a tuple.
pub open spec fn field_results(ty: TypeModel, entries: Seq<(Seq<char>, HostModel)>) -> Seq<
    Result<(Seq<char>, ValueModel), ErrorModel>,
>
    decreases ty, 1nat,
{
    match ty {
        TypeModel::Tuple(params) => Seq::new(
            params.len(),
            |i: int| encoded_field(ty, i, entries),
        ),
        _ => Seq::empty(),
    }
}

/// What each entry of an object gives to a map.
pub open spec fn entry_results(ty: TypeModel, entries: Seq<(Seq<char>, HostModel)>) -> Seq<
    Result<(ValueModel, ValueModel), ErrorModel>,
>
    decreases ty, 1nat,
{
    Seq::new(entries.len(), |i: int| encoded_entry(ty, entries, i))
}

/// The named value that an object gives to parameter `i` of a tuple: the
/// first entry of the parameter's name, converted. Where no entry has the
/// name, an optional parameter is absent, and any other is a
/// `ParameterMissing`.
pub open spec fn encoded_field(ty: TypeModel, i: int, entries: Seq<(Seq<char>, HostModel)>) -> Result<
    (Seq<char>, ValueModel),
    ErrorModel,
>
    decreases ty, 0nat,
{
    match ty {
        TypeModel::Tuple(params) => if 0 <= i < params.len() {
            match lookup(entries, params[i].name) {
                Some(host) => match encoded_value(params[i].ty, host) {
                    Ok(v) => Ok((params[i].name, v)),
                    Err(e) => Err(e),
                },
                None => if params[i].ty is Optional {
                    Ok((params[i].name, ValueModel::Optional(None)))
                } else {
                    Err(ErrorModel::ParameterMissing(params[i].name))
                },
            }
        } else {
            Err(ErrorModel::TypeMismatch)
        },
        _ => Err(ErrorModel::TypeMismatch),
    }
}

/// The key that the name of each entry of an object gives to a map.
pub open spec fn key_results(key: TypeModel, entries: Seq<(Seq<char>, HostModel)>) -> Seq<
    Result<ValueModel, ErrorModel>,
>
    decreases key, 3nat,
{
    Seq::new(entries.len(), |i: int| encoded_value(key, HostModel::Text(entries[i].0)))
}

/// The key and value that entry `i` of an object gives to a map: the name
/// converted as a key, the value as a value. A key that an earlier entry
/// gave already is a `ParameterConflict`.
pub open spec fn encoded_entry(ty: TypeModel, entries: Seq<(Seq<char>, HostModel)>, i: int) -> Result<
    (ValueModel, ValueModel),
    ErrorModel,
>
    decreases ty, 0nat,
{
    match ty {
        TypeModel::Mapping(key, value) => if 0 <= i < entries.len() {
            let keys = key_results(*key, entries);
            match keys[i] {
                Err(e) => Err(e),
                Ok(k) => if exists|j: int|
                    0 <= j < i && #[trigger] keys[j] == Ok::<ValueModel, ErrorModel>(k) {
                    Err(ErrorModel::ParameterConflict(entries[i].0))
                } else {
                    match encoded_value(*value, entries[i].1) {
                        Ok(v) => Ok((k, v)),
                        Err(e) => Err(e),
                    }
                },
            }
        } else {
            Err(ErrorModel::TypeMismatch)
        },
        _ => Err(ErrorModel::TypeMismatch),
    }
}

/// The text of a map's key: the decimal text of an integer, the text of an
/// address.
pub open spec fn key_text(key: ValueModel) -> Seq<char> {
    match key {
        ValueModel::Int(n) => decimal_text(n),
        ValueModel::VarInt(n) => decimal_text(n),
        ValueModel::Address(a) => address_text(a),
        _ => Seq::empty(),
    }
}

/// The host value of a strict value.
///
/// A scalar converts as `decoded_scalar` says. An array, fixed or not,
/// becomes the list of its items; a tuple the object of its named values; a
/// map the object of its entries, each under the text of its key; an absent
/// optional null, and a present one what it holds.
pub open spec fn decoded_value(v: ValueModel) -> HostModel
    decreases v,
{
    match v {
        ValueModel::Array(items) => HostModel::List(
            Seq::new(
                items.len(),
                |i: int|
                    if 0 <= i < items.len() {
                        decoded_value(items[i])
                    } else {
                        HostModel::Null
                    },
            ),
        ),
        ValueModel::FixedArray(items) => HostModel::List(
            Seq::new(
                items.len(),
                |i: int|
                    if 0 <= i < items.len() {
                        decoded_value(items[i])
                    } else {
                        HostModel::Null
                    },
            ),
        ),
        ValueModel::Tuple(fields) => HostModel::Object(
            Seq::new(
                fields.len(),
                |i: int|
                    if 0 <= i < fields.len() {
                        (fields[i].0, decoded_value(fields[i].1))
                    } else {
                        (Seq::empty(), HostModel::Null)
                    },
            ),
        ),
        ValueModel::Mapping(pairs) => HostModel::Object(
            Seq::new(
                pairs.len(),
                |i: int|
                    if 0 <= i < pairs.len() {
                        (key_text(pairs[i].0), decoded_value(pairs[i].1))
                    } else {
                        (Seq::empty(), HostModel::Null)
                    },
            ),
        ),
        ValueModel::Optional(inner) => match inner {
            None => HostModel::Null,
            Some(value) => decoded_value(*value),
        },
        _ => match decoded_scalar(v) {
            Some(host) => host,
            None => HostModel::Null,
        },
    }
}

/// Whether base64 reads back the text of all the bytes that a value holds.
/// Decoding a value shows this, since it writes those texts.
pub open spec fn reads_back(v: ValueModel) -> bool
    decreases v,
{
    match v {
        ValueModel::Array(items) => forall|i: int|
            0 <= i < items.len() ==> reads_back(#[trigger] items[i]),
        ValueModel::FixedArray(items) => forall|i: int|
            0 <= i < items.len() ==> reads_back(#[trigger] items[i]),
        ValueModel::Tuple(fields) => forall|i: int|
            0 <= i < fields.len() ==> reads_back((#[trigger] fields[i]).1),
        ValueModel::Mapping(pairs) => forall|i: int|
            0 <= i < pairs.len() ==> reads_back((#[trigger] pairs[i]).1),
        ValueModel::Optional(inner) => match inner {
            None => true,
            Some(value) => reads_back(*value),
        },
        _ => scalar_reads_back(v),
    }
}

/// Whether a strict value is a value of a type.
///
/// An integer is in the range of its width, an address is well formed,
/// fixed bytes and fixed arrays have the declared length, the fields of a
/// tuple have the names and types of its parameters in order, the keys of a
/// map differ from each other, and a present optional holds a value that
/// does not convert to null, which would read back as absent.
pub open spec fn value_has_type(ty: TypeModel, v: ValueModel) -> bool
    decreases ty,
{
    match ty {
        TypeModel::Bool => v is Bool,
        TypeModel::Int { signed, .. } => v matches ValueModel::Int(n) && int_in_range_of(ty, n),
        TypeModel::VarInt { signed, .. } => v matches ValueModel::VarInt(n) && int_in_range_of(
            ty,
            n,
        ),
        TypeModel::Address => v matches ValueModel::Address(a) && a.wf(),
        TypeModel::Bytes => v is Bytes,
        TypeModel::FixedBytes(n) => v matches ValueModel::FixedBytes(b) && b.len() == n,
        TypeModel::Text => v is Text,
        TypeModel::Cell => v is Cell,
        TypeModel::Mapping(key, value) => v matches ValueModel::Mapping(pairs) && (forall|i: int|
            0 <= i < pairs.len() ==> value_has_type(*key, (#[trigger] pairs[i]).0)
                && value_has_type(*value, pairs[i].1)) && (forall|i: int, j: int|
            0 <= i < j < pairs.len() ==> (#[trigger] pairs[i]).0 != (#[trigger] pairs[j]).0),
        TypeModel::Array(item) => v matches ValueModel::Array(items) && forall|i: int|
            0 <= i < items.len() ==> value_has_type(*item, #[trigger] items[i]),
        TypeModel::FixedArray(item, n) => v matches ValueModel::FixedArray(items) && items.len()
            == n && forall|i: int|
            0 <= i < items.len() ==> value_has_type(*item, #[trigger] items[i]),
        TypeModel::Tuple(params) => v matches ValueModel::Tuple(fields) && fields.len()
            == params.len() && forall|i: int|
            0 <= i < params.len() ==> (#[trigger] fields[i]).0 == params[i].name
                && value_has_type(params[i].ty, fields[i].1),
        TypeModel::Optional(inner) => v matches ValueModel::Optional(held) && (held matches Some(
            value,
        ) ==> value_has_type(*inner, *value) && decoded_value(*value) != HostModel::Null),
    }
}

/// Whether an integer is in the range of an integer type.
pub open spec fn int_in_range_of(ty: TypeModel, n: int) -> bool {
    match ty {
        TypeModel::Int { signed, .. } => crate::number::int_in_range(n, ty.int_bits(), signed),
        TypeModel::VarInt { signed, .. } => crate::number::int_in_range(n, ty.int_bits(), signed),
        _ => false,
    }
}

/// The strict values that an object gives to the parameters of a schema, in
/// the schema's order. A schema without parameters takes any host value.
pub open spec fn encoded_values(schema: Seq<ParamModel>, host: HostModel) -> Result<
    Seq<ValueModel>,
    ErrorModel,
> {
    if schema.len() == 0 {
        Ok(Seq::empty())
    } else {
        match encoded_value(TypeModel::Tuple(schema), host) {
            Ok(ValueModel::Tuple(fields)) => Ok(Seq::new(fields.len(), |i: int| fields[i].1)),
            Ok(_) => Err(ErrorModel::TypeMismatch),
            Err(e) => Err(e),
        }
    }
}

/// The object that names each strict value as the schema names its
/// parameter, where there are as many values as parameters.
pub open spec fn decoded_values(schema: Seq<ParamModel>, values: Seq<ValueModel>) -> Result<
    HostModel,
    ErrorModel,
> {
    if values.len() != schema.len() {
        Err(ErrorModel::LengthMismatch)
    } else {
        Ok(
            HostModel::Object(
                Seq::new(values.len(), |i: int| (schema[i].name, decoded_value(values[i]))),
            ),
        )
    }
}

/// Whether the values are values of the schema's parameters, one for each.
pub open spec fn values_have_types(schema: Seq<ParamModel>, values: Seq<ValueModel>) -> bool {
    values.len() == schema.len() && forall|i: int|
        0 <= i < schema.len() ==> value_has_type((#[trigger] schema[i]).ty, values[i])
}

/// The first entry of a name is the one that `lookup` finds.
pub proof fn lemma_lookup_first(entries: Seq<(Seq<char>, HostModel)>, name: Seq<char>, i: int)
    requires
        is_first_entry(entries, name, i),
    ensures
        lookup(entries, name) == Some(entries[i].1),
{
    let c = choose|c: int| is_first_entry(entries, name, c);
    if c < i {
        assert(entries[c].0 != name);
    } else if c > i {
        assert(entries[i].0 == name);
    }
}

/// Where no entry has a name, `lookup` finds none.
pub proof fn lemma_lookup_none(entries: Seq<(Seq<char>, HostModel)>, name: Seq<char>)
    requires
        forall|j: int| 0 <= j < entries.len() ==> (#[trigger] entries[j]).0 != name,
    ensures
        lookup(entries, name) is None,
{
    assert forall|c: int| !is_first_entry(entries, name, c) by {
        if 0 <= c < entries.len() {
            assert(entries[c].0 != name);
        }
    }
}

/// Fixed-length enforcement: a list of another length than a fixed array
/// declares is a `LengthMismatch`, whatever its items; a list of the declared
/// length whose items all encode gives an array of that length.
pub proof fn lemma_fixed_array_length(item: TypeModel, n: nat, items: Seq<HostModel>)
    ensures
        items.len() != n ==> encoded_value(
            TypeModel::FixedArray(Box::new(item), n),
            HostModel::List(items),
        ) == Err::<ValueModel, ErrorModel>(ErrorModel::LengthMismatch),
        items.len() == n && (forall|i: int|
            0 <= i < items.len() ==> (#[trigger] encoded_value(item, items[i])) is Ok) ==> (
        encoded_value(TypeModel::FixedArray(Box::new(item), n), HostModel::List(items)) matches Ok(
            ValueModel::FixedArray(values),
        ) && values.len() == n),
{
    if items.len() == n && (forall|i: int|
        0 <= i < items.len() ==> (#[trigger] encoded_value(item, items[i])) is Ok) {
        let results = item_results(item, items);
        assert forall|i: int| 0 <= i < results.len() implies (#[trigger] results[i]) is Ok by {
            assert(encoded_value(item, items[i]) is Ok);
        }
        lemma_collect_ok(results);
    }
}

/// Where every result is a value, gathering gives the values.
pub proof fn lemma_collect_ok<T>(results: Seq<Result<T, ErrorModel>>)
    requires
        forall|i: int| 0 <= i < results.len() ==> (#[trigger] results[i]) is Ok,
    ensures
        collect(results) == Ok::<Seq<T>, ErrorModel>(
            Seq::new(results.len(), |i: int| results[i]->Ok_0),
        ),
    decreases results.len(),
{
    if results.len() > 0 {
        let head = results.drop_last();
        lemma_collect_ok(head);
        assert(Seq::new(head.len(), |i: int| head[i]->Ok_0).push(results.last()->Ok_0)
            =~= Seq::new(results.len(), |i: int| results[i]->Ok_0));
    } else {
        assert(Seq::<T>::empty() =~= Seq::new(results.len(), |i: int| results[i]->Ok_0));
    }
}

/// Where result `k` is the first error, gathering gives that error.
pub proof fn lemma_collect_first_error<T>(results: Seq<Result<T, ErrorModel>>, k: int)
    requires
        0 <= k < results.len(),
        results[k] is Err,
        forall|i: int| 0 <= i < k ==> (#[trigger] results[i]) is Ok,
    ensures
        collect(results) == Err::<Seq<T>, ErrorModel>(results[k]->Err_0),
    decreases results.len(),
{
    let head = results.drop_last();
    if k == results.len() - 1 {
        lemma_collect_ok(head);
    } else {
        lemma_collect_first_error(head, k);
    }
}

/// Where gathering gives values, every result is a value, and the values
/// are those of the results in order.
pub proof fn lemma_collect_values<T>(results: Seq<Result<T, ErrorModel>>)
    requires
        collect(results) is Ok,
    ensures
        collect(results)->Ok_0.len() == results.len(),
        forall|i: int|
            0 <= i < results.len() ==> #[trigger] results[i] == Ok::<T, ErrorModel>(
                collect(results)->Ok_0[i],
            ),
    decreases results.len(),
{
    if results.len() > 0 {
        let head = results.drop_last();
        lemma_collect_values(head);
        let values = collect(head)->Ok_0;
        let last = results.last()->Ok_0;
        assert(collect(results) == Ok::<Seq<T>, ErrorModel>(values.push(last)));
        assert forall|i: int| 0 <= i < results.len() implies #[trigger] results[i] == Ok::<
            T,
            ErrorModel,
        >(collect(results)->Ok_0[i]) by {
            if i < head.len() {
                assert(head[i] == results[i]);
            }
        }
    }
}

/// The value of the first entry of a name, by reference.
pub fn find_entry<'a>(entries: &'a Vec<(String, HostValue)>, name: &String) -> (r: Option<
    &'a HostValue,
>)
    ensures
        match r {
            Some(h) => lookup(entries_view(entries@), name@) == Some(h@),
            None => lookup(entries_view(entries@), name@) is None,
        },
{
    let ghost model = entries_view(entries@);
    let mut i: usize = 0;
    while i < entries.len()
        invariant
            i <= entries.len(),
            model == entries_view(entries@),
            forall|j: int| 0 <= j < i ==> (#[trigger] model[j]).0 != name@,
        decreases entries.len() - i,
    {
        if entries[i].0 == *name {
            proof {
                lemma_lookup_first(model, name@, i as int);
            }
            return Some(&entries[i].1);
        }
        i = i + 1;
    }
    proof {
        lemma_lookup_none(model, name@);
    }
    None
}

/// Whether two keys of a map, integers or addresses, are the same value.
fn same_key(a: &StrictValue, b: &StrictValue) -> (r: bool)
    requires
        a@ is Int || a@ is Address,
        b@ is Int || b@ is Address,
    ensures
        r == (a@ == b@),
{
    match a {
        StrictValue::Int(x) => match b {
            StrictValue::Int(y) => x.same_value(y),
            _ => false,
        },
        StrictValue::Address(x) => match b {
            StrictValue::Address(y) => {
                let same = x.workchain == y.workchain && bytes_equal(&x.hash, &y.hash);
                proof {
                    if same {
                        assert(x@.hash =~= y@.hash);
                    }
                }
                same
            },
            _ => false,
        },
        _ => false,
    }
}

/// The text of a map's key.
pub fn key_to_text(key: &StrictValue) -> (r: String)
    ensures
        r@ == key_text(key@),
{
    match key {
        StrictValue::Int(n) => n.to_decimal(),
        StrictValue::VarInt(n) => n.to_decimal(),
        StrictValue::Address(a) => a.to_text(),
        _ => String::new(),
    }
}

/// Converts the items of a list into strict values of one type.
#[verifier::loop_isolation(false)]
fn encode_items(ty: &StrictType, item: &StrictType, items: &Vec<HostValue>) -> (r: Result<
    Vec<StrictValue>,
    BridgeError,
>)
    requires
        decreases_to!(ty => item),
    ensures
        match r {
            Ok(values) => collect(item_results(item@, items_view(items@))) == Ok::<
                Seq<ValueModel>,
                ErrorModel,
            >(values_view(values@)),
            Err(e) => collect(item_results(item@, items_view(items@))) == Err::<
                Seq<ValueModel>,
                ErrorModel,
            >(e@),
        },
    decreases ty, 0nat,
{
    let ghost results = item_results(item@, items_view(items@));
    let mut values: Vec<StrictValue> = Vec::new();
    let mut i: usize = 0;
    while i < items.len()
        invariant
            i <= items.len(),
            values@.len() == i,
            forall|j: int|
                0 <= j < i ==> #[trigger] results[j] == Ok::<ValueModel, ErrorModel>(values@[j]@),
        decreases items.len() - i,
    {
        match encode_value(item, &items[i]) {
            Ok(v) => {
                values.push(v);
            },
            Err(e) => {
                proof {
                    assert(results[i as int] == Err::<ValueModel, ErrorModel>(e@));
                    lemma_collect_first_error(results, i as int);
                }
                return Err(e);
            },
        }
        i = i + 1;
    }
    proof {
        lemma_collect_ok(results);
        assert(Seq::new(results.len(), |i: int| results[i]->Ok_0) =~= values_view(values@));
    }
    Ok(values)
}

/// Converts a host value into the strict value of a type.
#[verifier::loop_isolation(false)]
pub fn encode_value(ty: &StrictType, host: &HostValue) -> (r: Result<StrictValue, BridgeError>)
    ensures
        result_view(r) == encoded_value(ty@, host@),
    decreases ty, 1nat,
{
    match ty {
        StrictType::Array(item) => match host {
            HostValue::List(items) => {
                proof {
                    lemma_list_view(*items);
                }
                match encode_items(ty, item, items) {
                    Ok(values) => {
                        proof {
                            lemma_array_view(values);
                        }
                        Ok(StrictValue::Array(values))
                    },
                    Err(e) => Err(e),
                }
            },
            _ => Err(BridgeError::TypeMismatch),
        },
        StrictType::FixedArray(item, n) => match host {
            HostValue::List(items) => {
                proof {
                    lemma_list_view(*items);
                }
                if items.len() != *n {
                    Err(BridgeError::LengthMismatch)
                } else {
                    match encode_items(ty, item, items) {
                        Ok(values) => {
                            proof {
                                lemma_array_view(values);
                            }
                            Ok(StrictValue::FixedArray(values))
                        },
                        Err(e) => Err(e),
                    }
                }
            },
            _ => Err(BridgeError::TypeMismatch),
        },
        StrictType::Tuple(params) => match host {
            HostValue::Object(entries) => {
                proof {
                    lemma_object_view(*entries);
                }
                match encode_fields(ty, params, entries) {
                    Ok(fields) => {
                        proof {
                            lemma_tuple_view(fields);
                        }
                        Ok(StrictValue::Tuple(fields))
                    },
                    Err(e) => Err(e),
                }
            },
            _ => Err(BridgeError::TypeMismatch),
        },
        StrictType::Mapping(key, value) => match host {
            HostValue::Object(entries) => {
                proof {
                    lemma_object_view(*entries);
                }
                if !is_key_type(key) {
                    Err(BridgeError::TypeMismatch)
                } else {
                    match encode_entries(ty, key, value, entries) {
                        Ok(pairs) => {
                            proof {
                                lemma_mapping_view(pairs);
                            }
                            Ok(StrictValue::Mapping(pairs))
                        },
                        Err(e) => Err(e),
                    }
                }
            },
            _ => Err(BridgeError::TypeMismatch),
        },
        StrictType::Optional(inner) => match host {
            HostValue::Null => Ok(StrictValue::Optional(None)),
            _ => match encode_value(inner, host) {
                Ok(v) => Ok(StrictValue::Optional(Some(Box::new(v)))),
                Err(e) => Err(e),
            },
        },
        _ => encode_scalar(ty, host),
    }
}

/// Whether a type can be the key of a map.
pub fn is_key_type(ty: &StrictType) -> (r: bool)
    ensures
        r == ty@.is_key(),
{
    match ty {
        StrictType::Int { .. } => true,
        StrictType::Address => true,
        _ => false,
    }
}

/// Whether a type is optional.
pub fn is_optional_type(ty: &StrictType) -> (r: bool)
    ensures
        r == ty@ is Optional,
{
    match ty {
        StrictType::Optional(_) => true,
        _ => false,
    }
}

/// Converts the entries of an object into the fields of a tuple.
#[verifier::loop_isolation(false)]
fn encode_fields(ty: &StrictType, params: &Vec<Param>, entries: &Vec<(String, HostValue)>) -> (r:
    Result<Vec<(String, StrictValue)>, BridgeError>)
    requires
        *ty == StrictType::Tuple(*params),
    ensures
        match r {
            Ok(fields) => collect(field_results(ty@, entries_view(entries@))) == Ok::<
                Seq<(Seq<char>, ValueModel)>,
                ErrorModel,
            >(fields_view(fields@)),
            Err(e) => collect(field_results(ty@, entries_view(entries@))) == Err::<
                Seq<(Seq<char>, ValueModel)>,
                ErrorModel,
            >(e@),
        },
    decreases ty, 0nat,
{
    let ghost results = field_results(ty@, entries_view(entries@));
    let mut fields: Vec<(String, StrictValue)> = Vec::new();
    let mut i: usize = 0;
    while i < params.len()
        invariant
            i <= params.len(),
            fields@.len() == i,
            forall|j: int|
                0 <= j < i ==> #[trigger] results[j] == Ok::<(Seq<char>, ValueModel), ErrorModel>(
                    (fields@[j].0@, fields@[j].1@),
                ),
        decreases params.len() - i,
    {
        let param = &params[i];
        assert(ty@->Tuple_0[i as int] == param@);
        let found = find_entry(entries, &param.name);
        let value = match found {
            Some(h) => match encode_value(&param.ty, h) {
                Ok(v) => v,
                Err(e) => {
                    proof {
                        assert(results[i as int] == Err::<(Seq<char>, ValueModel), ErrorModel>(e@));
                        lemma_collect_first_error(results, i as int);
                    }
                    return Err(e);
                },
            },
            None => if is_optional_type(&param.ty) {
                StrictValue::Optional(None)
            } else {
                let e = BridgeError::ParameterMissing(param.name.clone());
                proof {
                    assert(results[i as int] == Err::<(Seq<char>, ValueModel), ErrorModel>(e@));
                    lemma_collect_first_error(results, i as int);
                }
                return Err(e);
            },
        };
        fields.push((param.name.clone(), value));
        i = i + 1;
    }
    proof {
        lemma_collect_ok(results);
        assert(Seq::new(results.len(), |i: int| results[i]->Ok_0) =~= fields_view(fields@));
    }
    Ok(fields)
}

/// Whether no entry of a map has the given key yet.
fn key_is_new(pairs: &Vec<(StrictValue, StrictValue)>, key: &StrictValue) -> (r: bool)
    requires
        key@ is Int || key@ is Address,
        forall|j: int| 0 <= j < pairs@.len() ==> (#[trigger] pairs@[j]).0@ is Int || pairs@[j].0@ is Address,
    ensures
        r == (forall|j: int| 0 <= j < pairs@.len() ==> (#[trigger] pairs@[j]).0@ != key@),
{
    let mut j: usize = 0;
    while j < pairs.len()
        invariant
            j <= pairs.len(),
            key@ is Int || key@ is Address,
            forall|m: int| 0 <= m < pairs@.len() ==> (#[trigger] pairs@[m]).0@ is Int || pairs@[m].0@ is Address,
            forall|m: int| 0 <= m < j ==> (#[trigger] pairs@[m]).0@ != key@,
        decreases pairs.len() - j,
    {
        if same_key(&pairs[j].0, key) {
            return false;
        }
        j = j + 1;
    }
    true
}

/// A value that a key type gives is an integer or an address.
proof fn lemma_key_shape(key: TypeModel, host: HostModel)
    requires
        key.is_key(),
        encoded_value(key, host) is Ok,
    ensures
        encoded_value(key, host)->Ok_0 is Int || encoded_value(key, host)->Ok_0 is Address,
{
}

/// Converts the entries of an object into the entries of a map.
fn encode_entries(
    ty: &StrictType,
    key: &StrictType,
    value: &StrictType,
    entries: &Vec<(String, HostValue)>,
) -> (r: Result<Vec<(StrictValue, StrictValue)>, BridgeError>)
    requires
        ty@ == TypeModel::Mapping(Box::new(key@), Box::new(value@)),
        decreases_to!(ty => key),
        decreases_to!(ty => value),
        key@.is_key(),
    ensures
        match r {
            Ok(pairs) => collect(entry_results(ty@, entries_view(entries@))) == Ok::<
                Seq<(ValueModel, ValueModel)>,
                ErrorModel,
            >(pairs_view(pairs@)),
            Err(e) => collect(entry_results(ty@, entries_view(entries@))) == Err::<
                Seq<(ValueModel, ValueModel)>,
                ErrorModel,
            >(e@),
        },
    decreases ty, 0nat,
{
    let ghost model = entries_view(entries@);
    let ghost results = entry_results(ty@, model);
    let ghost keys = key_results(key@, model);
    let mut pairs: Vec<(StrictValue, StrictValue)> = Vec::new();
    let mut i: usize = 0;
    while i < entries.len()
        invariant
            i <= entries.len(),
            pairs@.len() == i,
            model == entries_view(entries@),
            results == entry_results(ty@, model),
            keys == key_results(key@, model),
            ty@ == TypeModel::Mapping(Box::new(key@), Box::new(value@)),
            decreases_to!(ty => key),
            decreases_to!(ty => value),
            key@.is_key(),
            forall|j: int|
                0 <= j < i ==> #[trigger] results[j] == Ok::<(ValueModel, ValueModel), ErrorModel>(
                    (pairs@[j].0@, pairs@[j].1@),
                ),
            forall|j: int|
                0 <= j < i ==> #[trigger] keys[j] == Ok::<ValueModel, ErrorModel>(pairs@[j].0@),
            forall|j: int|
                0 <= j < i ==> (#[trigger] pairs@[j]).0@ is Int || pairs@[j].0@ is Address,
        decreases entries.len() - i,
    {
        let name = HostValue::Text(entries[i].0.clone());
        assert(name@ == HostModel::Text(model[i as int].0));
        let k = match encode_value(key, &name) {
            Ok(k) => k,
            Err(e) => {
                proof {
                    assert(keys[i as int] == Err::<ValueModel, ErrorModel>(e@));
                    assert(results[i as int] == Err::<(ValueModel, ValueModel), ErrorModel>(e@));
                    lemma_collect_first_error(results, i as int);
                }
                return Err(e);
            },
        };
        proof {
            assert(keys[i as int] == Ok::<ValueModel, ErrorModel>(k@));
            lemma_key_shape(key@, name@);
        }
        if !key_is_new(&pairs, &k) {
            let e = BridgeError::ParameterConflict(entries[i].0.clone());
            proof {
                let j = choose|j: int| 0 <= j < pairs@.len() && (#[trigger] pairs@[j]).0@ == k@;
                assert(keys[j] == Ok::<ValueModel, ErrorModel>(k@));
                assert(results[i as int] == Err::<(ValueModel, ValueModel), ErrorModel>(e@));
                lemma_collect_first_error(results, i as int);
            }
            return Err(e);
        }
        proof {
            assert forall|j: int| 0 <= j < i implies #[trigger] keys[j] != Ok::<
                ValueModel,
                ErrorModel,
            >(k@) by {
                assert(pairs@[j].0@ != k@);
            }
        }
        let v = match encode_value(value, &entries[i].1) {
            Ok(v) => v,
            Err(e) => {
                proof {
                    assert(results[i as int] == Err::<(ValueModel, ValueModel), ErrorModel>(e@));
                    lemma_collect_first_error(results, i as int);
                }
                return Err(e);
            },
        };
        proof {
            assert(results[i as int] == Ok::<(ValueModel, ValueModel), ErrorModel>((k@, v@)));
        }
        pairs.push((k, v));
        i = i + 1;
    }
    proof {
        lemma_collect_ok(results);
        assert(Seq::new(results.len(), |i: int| results[i]->Ok_0) =~= pairs_view(pairs@));
    }
    Ok(pairs)
}

/// Converts a strict value into its host value.
#[verifier::loop_isolation(false)]
pub fn decode_value(v: &StrictValue) -> (r: HostValue)
    ensures
        r@ == decoded_value(v@),
        reads_back(v@),
    decreases v,
{
    match v {
        StrictValue::Array(items) => {
            let hosts = decode_items(v, items);
            proof {
                lemma_array_view(*items);
                lemma_list_view(hosts);
                assert(items_view(hosts@) =~= decoded_value(v@)->List_0);
            }
            HostValue::List(hosts)
        },
        StrictValue::FixedArray(items) => {
            let hosts = decode_items(v, items);
            proof {
                lemma_array_view(*items);
                lemma_list_view(hosts);
                assert(items_view(hosts@) =~= decoded_value(v@)->List_0);
            }
            HostValue::List(hosts)
        },
        StrictValue::Tuple(fields) => {
            let mut entries: Vec<(String, HostValue)> = Vec::new();
            let mut i: usize = 0;
            while i < fields.len()
                invariant
                    i <= fields.len(),
                    entries@.len() == i,
                    forall|j: int|
                        0 <= j < i ==> (#[trigger] entries@[j]).0@ == fields@[j].0@ && entries@[j].1@
                            == decoded_value(fields@[j].1@),
                    forall|j: int| 0 <= j < i ==> reads_back((#[trigger] fields@[j]).1@),
                decreases fields.len() - i,
            {
                let host = decode_value(&fields[i].1);
                entries.push((fields[i].0.clone(), host));
                i = i + 1;
            }
            proof {
                lemma_tuple_view(*fields);
                lemma_object_view(entries);
                assert(entries_view(entries@) =~= decoded_value(v@)->Object_0);
            }
            HostValue::Object(entries)
        },
        StrictValue::Mapping(pairs) => {
            let mut entries: Vec<(String, HostValue)> = Vec::new();
            let mut i: usize = 0;
            while i < pairs.len()
                invariant
                    i <= pairs.len(),
                    entries@.len() == i,
                    forall|j: int|
                        0 <= j < i ==> (#[trigger] entries@[j]).0@ == key_text(pairs@[j].0@)
                            && entries@[j].1@ == decoded_value(pairs@[j].1@),
                    forall|j: int| 0 <= j < i ==> reads_back((#[trigger] pairs@[j]).1@),
                decreases pairs.len() - i,
            {
                let host = decode_value(&pairs[i].1);
                entries.push((key_to_text(&pairs[i].0), host));
                i = i + 1;
            }
            proof {
                lemma_mapping_view(*pairs);
                lemma_object_view(entries);
                assert(entries_view(entries@) =~= decoded_value(v@)->Object_0);
            }
            HostValue::Object(entries)
        },
        StrictValue::Optional(inner) => match inner {
            None => HostValue::Null,
            Some(value) => decode_value(value),
        },
        _ => match decode_scalar(v) {
            Some(host) => host,
            None => HostValue::Null,
        },
    }
}

/// Converts the items of an array into host values.
#[verifier::loop_isolation(false)]
fn decode_items(v: &StrictValue, items: &Vec<StrictValue>) -> (r: Vec<HostValue>)
    requires
        decreases_to!(v => items),
    ensures
        r@.len() == items@.len(),
        forall|j: int| 0 <= j < r@.len() ==> (#[trigger] r@[j])@ == decoded_value(items@[j]@),
        forall|j: int| 0 <= j < items@.len() ==> reads_back((#[trigger] items@[j])@),
    decreases v, 0nat,
{
    let mut hosts: Vec<HostValue> = Vec::new();
    let mut i: usize = 0;
    while i < items.len()
        invariant
            i <= items.len(),
            hosts@.len() == i,
            forall|j: int| 0 <= j < i ==> (#[trigger] hosts@[j])@ == decoded_value(items@[j]@),
            forall|j: int| 0 <= j < i ==> reads_back((#[trigger] items@[j])@),
        decreases items.len() - i,
    {
        let host = decode_value(&items[i]);
        hosts.push(host);
        i = i + 1;
    }
    hosts
}

/// The values of named values, in order.
fn field_values(fields: Vec<(String, StrictValue)>) -> (r: Vec<StrictValue>)
    ensures
        r@.len() == fields@.len(),
        forall|i: int| 0 <= i < r@.len() ==> #[trigger] r@[i] == fields@[i].1,
{
    let ghost all = fields@;
    let mut fields = fields;
    let mut back: Vec<StrictValue> = Vec::new();
    while fields.len() > 0
        invariant
            fields@.len() + back@.len() == all.len(),
            forall|i: int| 0 <= i < fields@.len() ==> #[trigger] fields@[i] == all[i],
            forall|i: int|
                0 <= i < back@.len() ==> #[trigger] back@[i] == all[all.len() - 1 - i].1,
        decreases fields.len(),
    {
        match fields.pop() {
            Some(field) => {
                back.push(field.1);
            },
            None => {},
        }
    }
    let mut values: Vec<StrictValue> = Vec::new();
    let ghost reversed = back@;
    while back.len() > 0
        invariant
            reversed.len() == all.len(),
            back@.len() + values@.len() == all.len(),
            forall|i: int| 0 <= i < back@.len() ==> #[trigger] back@[i] == reversed[i],
            forall|i: int| 0 <= i < reversed.len() ==> #[trigger] reversed[i] == all[all.len() - 1 - i].1,
            forall|i: int| 0 <= i < values@.len() ==> #[trigger] values@[i] == all[i].1,
        decreases back.len(),
    {
        match back.pop() {
            Some(value) => {
                values.push(value);
            },
            None => {},
        }
    }
    values
}

/// Converts the named entries of an object into the strict values of a
/// schema's parameters, in the schema's order.
pub fn encode(schema: &ParameterSchema, host: &HostValue) -> (r: Result<
    Vec<StrictValue>,
    BridgeError,
>)
    ensures
        match r {
            Ok(values) => encoded_values(schema@, host@) == Ok::<Seq<ValueModel>, ErrorModel>(
                values_view(values@),
            ),
            Err(e) => encoded_values(schema@, host@) == Err::<Seq<ValueModel>, ErrorModel>(e@),
        },
{
    if schema.params().len() == 0 {
        let values: Vec<StrictValue> = Vec::new();
        assert(values_view(values@) =~= Seq::<ValueModel>::empty());
        return Ok(values);
    }
    match encode_value(schema.as_tuple(), host) {
        Ok(StrictValue::Tuple(fields)) => {
            proof {
                lemma_tuple_view(fields);
            }
            let ghost named = fields_view(fields@);
            let values = field_values(fields);
            assert(values_view(values@) =~= Seq::new(named.len(), |i: int| named[i].1));
            Ok(values)
        },
        Ok(_) => Err(BridgeError::TypeMismatch),
        Err(e) => Err(e),
    }
}

/// Converts the strict values of a schema's parameters into an object that
/// names each as the schema does. A list of another length than the schema
/// is a `LengthMismatch`. Where the values are values of the parameters, the
/// object encodes to them again.
pub fn decode(schema: &ParameterSchema, values: &Vec<StrictValue>) -> (r: Result<
    HostValue,
    BridgeError,
>)
    ensures
        result_view(r) == decoded_values(schema@, values_view(values@)),
        r is Ok ==> forall|i: int| 0 <= i < values@.len() ==> reads_back((#[trigger] values@[i])@),
        values_have_types(schema@, values_view(values@)) ==> (r matches Ok(host)
            && encoded_values(schema@, host@) == Ok::<Seq<ValueModel>, ErrorModel>(
            values_view(values@),
        )),
{
    let params = schema.params();
    if values.len() != params.len() {
        return Err(BridgeError::LengthMismatch);
    }
    let mut entries: Vec<(String, HostValue)> = Vec::new();
    let mut i: usize = 0;
    while i < values.len()
        invariant
            i <= values.len(),
            values.len() == params.len(),
            entries@.len() == i,
            forall|j: int|
                0 <= j < i ==> (#[trigger] entries@[j]).0@ == params@[j].name@ && entries@[j].1@
                    == decoded_value(values@[j]@),
            forall|j: int| 0 <= j < i ==> reads_back((#[trigger] values@[j])@),
        decreases values.len() - i,
    {
        let host = decode_value(&values[i]);
        entries.push((params[i].name.clone(), host));
        i = i + 1;
    }
    proof {
        lemma_object_view(entries);
        assert(entries_view(entries@) =~= decoded_values(
            schema@,
            values_view(values@),
        )->Ok_0->Object_0);
        if values_have_types(schema@, values_view(values@)) {
            crate::round_trip::lemma_values_decode_then_encode(schema@, values_view(values@));
        }
    }
    Ok(HostValue::Object(entries))
}

} // verus!
