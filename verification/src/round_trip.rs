//! What encoding and decoding do to each other.

use vstd::prelude::*;
use vstd::arithmetic::power2::{lemma2_to64, lemma_pow2_adds, lemma_pow2_strictly_increases, pow2};
use crate::address::{lemma_address_round_trip, lemma_address_value_wf};
use crate::codec::{decoded_value, decoded_values, encoded_entry, encoded_field, encoded_value, encoded_values, entry_results, field_results, int_in_range_of, is_first_entry, item_results, key_results, key_text, lemma_collect_ok, lemma_collect_values, lemma_lookup_first, lookup, reads_back, value_has_type, values_have_types};
use crate::error::ErrorModel;
use crate::number::lemma_decimal_round_trip;
use crate::text::ascii_codes;
use crate::types::{names_distinct, schema_wf, ParamModel, TypeModel};
use crate::value::{host_wf, HostModel, ValueModel};
use crate::wide::u256_limit;

verus! {

/// A host value other than null never encodes to a value that decodes to
/// null.
pub proof fn lemma_encoded_is_not_null(ty: TypeModel, host: HostModel)
    requires
        encoded_value(ty, host) is Ok,
        host != HostModel::Null,
    ensures
        decoded_value(encoded_value(ty, host)->Ok_0) != HostModel::Null,
    decreases ty,
{
    match ty {
        TypeModel::Optional(inner) => {
            lemma_encoded_is_not_null(*inner, host);
        },
        _ => {},
    }
}

/// Every integer in the range of a well-formed integer type has a
/// magnitude below two to the power 256.
pub proof fn lemma_range_below_limit(ty: TypeModel, n: int)
    requires
        ty.wf(),
        int_in_range_of(ty, n),
    ensures
        -u256_limit() < n < u256_limit(),
{
    let bits = ty.int_bits();
    lemma2_to64();
    lemma_pow2_adds(64, 64);
    lemma_pow2_adds(128, 64);
    lemma_pow2_adds(192, 64);
    assert(pow2(256) == u256_limit());
    assert(bits <= 256);
    if bits < 256 {
        lemma_pow2_strictly_increases(bits, 256);
    }
    if bits >= 1 {
        lemma_pow2_strictly_increases((bits - 1) as nat, 256);
    }
}

/// What encoding gives is a value of the type.
pub proof fn lemma_encoded_has_type(ty: TypeModel, host: HostModel)
    requires
        ty.wf(),
        encoded_value(ty, host) is Ok,
    ensures
        value_has_type(ty, encoded_value(ty, host)->Ok_0),
    decreases ty,
{
    let v = encoded_value(ty, host)->Ok_0;
    match ty {
        TypeModel::Address => {
            let text = host->Text_0;
            lemma_address_value_wf(ascii_codes(text));
        },
        TypeModel::Array(item) => {
            let items = host->List_0;
            let results = item_results(*item, items);
            lemma_collect_values(results);
            assert forall|i: int| 0 <= i < v->Array_0.len() implies value_has_type(
                *item,
                #[trigger] v->Array_0[i],
            ) by {
                assert(results[i] == Ok::<ValueModel, ErrorModel>(v->Array_0[i]));
                lemma_encoded_has_type(*item, items[i]);
            }
        },
        TypeModel::FixedArray(item, n) => {
            let items = host->List_0;
            let results = item_results(*item, items);
            lemma_collect_values(results);
            assert forall|i: int| 0 <= i < v->FixedArray_0.len() implies value_has_type(
                *item,
                #[trigger] v->FixedArray_0[i],
            ) by {
                assert(results[i] == Ok::<ValueModel, ErrorModel>(v->FixedArray_0[i]));
                lemma_encoded_has_type(*item, items[i]);
            }
        },
        TypeModel::Tuple(params) => {
            let entries = host->Object_0;
            let results = field_results(ty, entries);
            lemma_collect_values(results);
            let fields = v->Tuple_0;
            assert forall|i: int| 0 <= i < params.len() implies (#[trigger] fields[i]).0
                == params[i].name && value_has_type(params[i].ty, fields[i].1) by {
                assert(results[i] == Ok::<(Seq<char>, ValueModel), ErrorModel>(fields[i]));
                assert(results[i] == encoded_field(ty, i, entries));
                match lookup(entries, params[i].name) {
                    Some(h) => {
                        lemma_encoded_has_type(params[i].ty, h);
                    },
                    None => {},
                }
            }
        },
        TypeModel::Mapping(key, value) => {
            let entries = host->Object_0;
            let results = entry_results(ty, entries);
            let keys = key_results(*key, entries);
            lemma_collect_values(results);
            let pairs = v->Mapping_0;
            assert forall|i: int| 0 <= i < pairs.len() implies value_has_type(
                *key,
                (#[trigger] pairs[i]).0,
            ) && value_has_type(*value, pairs[i].1) && keys[i] == Ok::<ValueModel, ErrorModel>(
                pairs[i].0,
            ) by {
                assert(results[i] == Ok::<(ValueModel, ValueModel), ErrorModel>(pairs[i]));
                assert(results[i] == encoded_entry(ty, entries, i));
                lemma_encoded_has_type(*key, HostModel::Text(entries[i].0));
                lemma_encoded_has_type(*value, entries[i].1);
            }
            assert forall|i: int, j: int| 0 <= i < j < pairs.len() implies (#[trigger] pairs[i]).0
                != (#[trigger] pairs[j]).0 by {
                assert(results[j] == Ok::<(ValueModel, ValueModel), ErrorModel>(pairs[j]));
                assert(results[j] == encoded_entry(ty, entries, j));
                assert(keys[i] == Ok::<ValueModel, ErrorModel>(pairs[i].0));
                assert(keys[j] == Ok::<ValueModel, ErrorModel>(pairs[j].0));
            }
        },
        TypeModel::Optional(inner) => {
            if host != HostModel::Null {
                lemma_encoded_has_type(*inner, host);
                lemma_encoded_is_not_null(*inner, host);
            }
        },
        _ => {},
    }
}

/// Encoding the text of a key gives the key back.
pub proof fn lemma_key_round_trip(key: TypeModel, k: ValueModel)
    requires
        key.wf(),
        key.is_key(),
        value_has_type(key, k),
    ensures
        encoded_value(key, HostModel::Text(key_text(k))) == Ok::<ValueModel, ErrorModel>(k),
{
    match key {
        TypeModel::Int { .. } => {
            let n = k->Int_0;
            lemma_decimal_round_trip(n);
            lemma_range_below_limit(key, n);
        },
        TypeModel::Address => {
            lemma_address_round_trip(k->Address_0);
        },
        _ => {},
    }
}

/// Encoding what a value of the type decodes to gives the value back,
/// where base64 reads back the bytes that the value holds, as decoding the
/// value shows.
pub proof fn lemma_decode_then_encode(ty: TypeModel, v: ValueModel)
    requires
        ty.wf(),
        value_has_type(ty, v),
        reads_back(v),
    ensures
        encoded_value(ty, decoded_value(v)) == Ok::<ValueModel, ErrorModel>(v),
    decreases ty,
{
    let host = decoded_value(v);
    match ty {
        TypeModel::Int { .. } => {
            lemma_decimal_round_trip(v->Int_0);
            lemma_range_below_limit(ty, v->Int_0);
        },
        TypeModel::VarInt { .. } => {
            lemma_decimal_round_trip(v->VarInt_0);
            lemma_range_below_limit(ty, v->VarInt_0);
        },
        TypeModel::Address => {
            lemma_address_round_trip(v->Address_0);
        },
        TypeModel::Array(item) => {
            let items = v->Array_0;
            let hosts = host->List_0;
            let results = item_results(*item, hosts);
            assert forall|i: int| 0 <= i < results.len() implies #[trigger] results[i] == Ok::<
                ValueModel,
                ErrorModel,
            >(items[i]) by {
                lemma_decode_then_encode(*item, items[i]);
            }
            lemma_collect_ok(results);
            assert(Seq::new(results.len(), |i: int| results[i]->Ok_0) =~= items);
        },
        TypeModel::FixedArray(item, _) => {
            let items = v->FixedArray_0;
            let hosts = host->List_0;
            let results = item_results(*item, hosts);
            assert forall|i: int| 0 <= i < results.len() implies #[trigger] results[i] == Ok::<
                ValueModel,
                ErrorModel,
            >(items[i]) by {
                lemma_decode_then_encode(*item, items[i]);
            }
            lemma_collect_ok(results);
            assert(Seq::new(results.len(), |i: int| results[i]->Ok_0) =~= items);
        },
        TypeModel::Tuple(params) => {
            let fields = v->Tuple_0;
            let entries = host->Object_0;
            let results = field_results(ty, entries);
            assert forall|i: int| 0 <= i < results.len() implies #[trigger] results[i] == Ok::<
                (Seq<char>, ValueModel),
                ErrorModel,
            >(fields[i]) by {
                lemma_first_entry(params, fields, i);
                lemma_decode_then_encode(params[i].ty, fields[i].1);
                assert(results[i] == encoded_field(ty, i, entries));
            }
            lemma_collect_ok(results);
            assert(Seq::new(results.len(), |i: int| results[i]->Ok_0) =~= fields);
        },
        TypeModel::Mapping(key, value) => {
            let pairs = v->Mapping_0;
            let entries = host->Object_0;
            let results = entry_results(ty, entries);
            let keys = key_results(*key, entries);
            assert forall|i: int| 0 <= i < keys.len() implies #[trigger] keys[i] == Ok::<
                ValueModel,
                ErrorModel,
            >(pairs[i].0) by {
                lemma_key_round_trip(*key, pairs[i].0);
            }
            assert forall|i: int| 0 <= i < results.len() implies #[trigger] results[i] == Ok::<
                (ValueModel, ValueModel),
                ErrorModel,
            >(pairs[i]) by {
                lemma_decode_then_encode(*value, pairs[i].1);
                assert(keys[i] == Ok::<ValueModel, ErrorModel>(pairs[i].0));
                assert forall|j: int| 0 <= j < i implies #[trigger] keys[j] != Ok::<
                    ValueModel,
                    ErrorModel,
                >(pairs[i].0) by {
                    assert(pairs[j].0 != pairs[i].0);
                }
                assert(results[i] == encoded_entry(ty, entries, i));
            }
            lemma_collect_ok(results);
            assert(Seq::new(results.len(), |i: int| results[i]->Ok_0) =~= pairs);
        },
        TypeModel::Optional(inner) => {
            match v->Optional_0 {
                None => {},
                Some(held) => {
                    lemma_decode_then_encode(*inner, *held);
                },
            }
        },
        _ => {},
    }
}

/// In the object that a tuple decodes to, the first entry of the name of
/// parameter `i` is entry `i`, which holds what field `i` decodes to.
proof fn lemma_first_entry(
    params: Seq<ParamModel>,
    fields: Seq<(Seq<char>, ValueModel)>,
    i: int,
)
    requires
        names_distinct(params),
        fields.len() == params.len(),
        forall|j: int| 0 <= j < params.len() ==> (#[trigger] fields[j]).0 == params[j].name,
        0 <= i < params.len(),
    ensures
        lookup(decoded_value(ValueModel::Tuple(fields))->Object_0, params[i].name) == Some(
            decoded_value(fields[i].1),
        ),
{
    let entries = decoded_value(ValueModel::Tuple(fields))->Object_0;
    let name = params[i].name;
    assert(entries[i] == (fields[i].0, decoded_value(fields[i].1)));
    assert forall|j: int| 0 <= j < i implies (#[trigger] entries[j]).0 != name by {
        assert(fields[j].0 == params[j].name);
    }
    assert(is_first_entry(entries, name, i));
    lemma_lookup_first(entries, name, i);
}

/// The round trip of a value: where a host value encodes to a strict value,
/// that is a value of the type, and what it decodes to encodes to the same
/// strict value again, base64 reading back the bytes that it holds. So decoding gives the host value back up to what
/// encoding does not tell apart: the spelling of numbers, keys and bytes, the
/// order and the unused entries of an object.
pub proof fn lemma_round_trip(ty: TypeModel, host: HostModel)
    requires
        ty.wf(),
        encoded_value(ty, host) is Ok,
        reads_back(encoded_value(ty, host)->Ok_0),
    ensures
        value_has_type(ty, encoded_value(ty, host)->Ok_0),
        encoded_value(ty, decoded_value(encoded_value(ty, host)->Ok_0)) == encoded_value(
            ty,
            host,
        ),
{
    lemma_encoded_has_type(ty, host);
    lemma_decode_then_encode(ty, encoded_value(ty, host)->Ok_0);
}

/// What a value of a well-formed type decodes to is well formed: no object
/// in it has two entries of one name.
pub proof fn lemma_decoded_is_well_formed(ty: TypeModel, v: ValueModel)
    requires
        ty.wf(),
        value_has_type(ty, v),
    ensures
        host_wf(decoded_value(v)),
    decreases ty,
{
    let host = decoded_value(v);
    match ty {
        TypeModel::Array(item) => {
            let items = v->Array_0;
            assert forall|i: int| 0 <= i < host->List_0.len() implies host_wf(
                #[trigger] host->List_0[i],
            ) by {
                lemma_decoded_is_well_formed(*item, items[i]);
            }
        },
        TypeModel::FixedArray(item, _) => {
            let items = v->FixedArray_0;
            assert forall|i: int| 0 <= i < host->List_0.len() implies host_wf(
                #[trigger] host->List_0[i],
            ) by {
                lemma_decoded_is_well_formed(*item, items[i]);
            }
        },
        TypeModel::Tuple(params) => {
            let fields = v->Tuple_0;
            let entries = host->Object_0;
            assert forall|i: int| 0 <= i < entries.len() implies host_wf(
                (#[trigger] entries[i]).1,
            ) by {
                lemma_decoded_is_well_formed(params[i].ty, fields[i].1);
            }
            assert forall|i: int, j: int| 0 <= i < j < entries.len() implies (#[trigger] entries[i]).0
                != (#[trigger] entries[j]).0 by {
                assert(fields[i].0 == params[i].name);
                assert(fields[j].0 == params[j].name);
            }
        },
        TypeModel::Mapping(key, value) => {
            let pairs = v->Mapping_0;
            let entries = host->Object_0;
            assert forall|i: int| 0 <= i < entries.len() implies host_wf(
                (#[trigger] entries[i]).1,
            ) by {
                lemma_decoded_is_well_formed(*value, pairs[i].1);
            }
            assert forall|i: int, j: int| 0 <= i < j < entries.len() implies (#[trigger] entries[i]).0
                != (#[trigger] entries[j]).0 by {
                lemma_key_round_trip(*key, pairs[i].0);
                lemma_key_round_trip(*key, pairs[j].0);
                assert(pairs[i].0 != pairs[j].0);
            }
        },
        TypeModel::Optional(inner) => {
            match v->Optional_0 {
                None => {},
                Some(held) => {
                    lemma_decoded_is_well_formed(*inner, *held);
                },
            }
        },
        _ => {},
    }
}

/// Decoding gives the host value back exactly where the host value is one
/// that decoding gives: what a value of the type decodes to encodes, and
/// decodes again to itself.
pub proof fn lemma_decoded_is_fixed(ty: TypeModel, v: ValueModel)
    requires
        ty.wf(),
        value_has_type(ty, v),
        reads_back(v),
    ensures
        encoded_value(ty, decoded_value(v)) is Ok,
        decoded_value(encoded_value(ty, decoded_value(v))->Ok_0) == decoded_value(v),
{
    lemma_decode_then_encode(ty, v);
}

/// The round trip of a schema's values: where an object encodes to strict
/// values, they are values of the schema's parameters, they decode to an
/// object, and that object encodes to the same strict values again.
pub proof fn lemma_values_round_trip(schema: Seq<ParamModel>, host: HostModel)
    requires
        schema_wf(schema),
        encoded_values(schema, host) is Ok,
        forall|i: int|
            0 <= i < encoded_values(schema, host)->Ok_0.len() ==> reads_back(
                #[trigger] encoded_values(schema, host)->Ok_0[i],
            ),
    ensures
        values_have_types(schema, encoded_values(schema, host)->Ok_0),
        decoded_values(schema, encoded_values(schema, host)->Ok_0) is Ok,
        encoded_values(
            schema,
            decoded_values(schema, encoded_values(schema, host)->Ok_0)->Ok_0,
        ) == encoded_values(schema, host),
{
    let values = encoded_values(schema, host)->Ok_0;
    if schema.len() == 0 {
        assert(values =~= Seq::<ValueModel>::empty());
    } else {
        let ty = TypeModel::Tuple(schema);
        let tuple = encoded_value(ty, host)->Ok_0;
        let fields = tuple->Tuple_0;
        assert forall|i: int| 0 <= i < fields.len() implies reads_back((#[trigger] fields[i]).1) by {
            assert(values[i] == fields[i].1);
        }
        lemma_round_trip(ty, host);
        let back = decoded_values(schema, values)->Ok_0;
        assert(back->Object_0 =~= decoded_value(tuple)->Object_0);
    }
}

/// Decoding is the inverse of encoding on the values of a schema: the object
/// that values of the schema's parameters decode to encodes to those values.
pub proof fn lemma_values_decode_then_encode(schema: Seq<ParamModel>, values: Seq<ValueModel>)
    requires
        schema_wf(schema),
        values_have_types(schema, values),
        forall|i: int| 0 <= i < values.len() ==> reads_back(#[trigger] values[i]),
    ensures
        decoded_values(schema, values) is Ok,
        encoded_values(schema, decoded_values(schema, values)->Ok_0) == Ok::<
            Seq<ValueModel>,
            ErrorModel,
        >(values),
{
    if schema.len() == 0 {
        assert(values =~= Seq::<ValueModel>::empty());
    } else {
        let ty = TypeModel::Tuple(schema);
        let fields = Seq::new(schema.len(), |i: int| (schema[i].name, values[i]));
        let tuple = ValueModel::Tuple(fields);
        assert(value_has_type(ty, tuple));
        assert forall|i: int| 0 <= i < fields.len() implies reads_back((#[trigger] fields[i]).1) by {
            assert(reads_back(values[i]));
        }
        lemma_decode_then_encode(ty, tuple);
        let back = decoded_values(schema, values)->Ok_0;
        assert(back->Object_0 =~= decoded_value(tuple)->Object_0);
        assert(Seq::new(fields.len(), |i: int| fields[i].1) =~= values);
    }
}

} // verus!
