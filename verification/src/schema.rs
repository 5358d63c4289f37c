//! The schema resolver: schema descriptions into schemas, and the values
//! that a contract's state already fixes together with the caller's.

use vstd::prelude::*;
use vstd::utf8::is_ascii_chars;
use crate::codec::{collect, decode, decoded_values, encode, encoded_values, find_entry, reads_back, values_have_types, is_first_entry, lemma_collect_first_error, lemma_collect_ok, lemma_lookup_first, lookup};
use crate::error::{result_view, BridgeError, ErrorModel};
use crate::grammar::{parse_type_text, parsed_type};
use crate::text::ascii_codes;
use crate::types::{params_view, schema_wf, Param, ParamModel, ParameterSchema};
use crate::value::{entries_view, lemma_object_view, values_view, HostModel, HostValue, StrictValue, ValueModel};

verus! {

/// The description of one parameter: its name, the text of its type, and
/// the descriptions of the components of a `tuple` in that text.
#[derive(Debug, PartialEq, Eq)]
pub struct RawParam {
    pub name: String,
    pub kind: String,
    pub components: Vec<RawParam>,
}

/// A `RawParam` as a mathematical value.
pub struct RawParamModel {
    pub name: Seq<char>,
    pub kind: Seq<char>,
    pub components: Seq<RawParamModel>,
}

/// The mathematical value of a description.
pub open spec fn raw_model(raw: RawParam) -> RawParamModel
    decreases raw,
{
    RawParamModel {
        name: raw.name@,
        kind: raw.kind@,
        components: Seq::new(
            raw.components@.len(),
            |i: int|
                if 0 <= i < raw.components@.len() {
                    raw_model(raw.components@[i])
                } else {
                    arbitrary()
                },
        ),
    }
}

impl View for RawParam {
    type V = RawParamModel;

    open spec fn view(&self) -> RawParamModel {
        raw_model(*self)
    }
}

/// The descriptions of a list as mathematical values.
pub open spec fn raws_view(raws: Seq<RawParam>) -> Seq<RawParamModel> {
    Seq::new(raws.len(), |i: int| raws[i]@)
}

/// The components of a description are the views of its components.
pub proof fn lemma_raw_view(raw: RawParam)
    ensures
        raw@.components == raws_view(raw.components@),
{
    assert(raw@.components =~= raws_view(raw.components@));
}

/// The parameter that a description gives: its name, and the type that its
/// text writes over the parameters of its components. Any fault is a
/// `SchemaParseError`.
pub open spec fn resolved_param(raw: RawParamModel) -> Result<ParamModel, ErrorModel>
    decreases raw, 1nat,
{
    match collect(resolved_params(raw.components)) {
        Ok(components) => if is_ascii_chars(raw.kind) {
            match parsed_type(ascii_codes(raw.kind), components) {
                Some(ty) => Ok(ParamModel { name: raw.name, ty }),
                None => Err(ErrorModel::SchemaParseError),
            }
        } else {
            Err(ErrorModel::SchemaParseError)
        },
        Err(_) => Err(ErrorModel::SchemaParseError),
    }
}

/// What each description of a list gives.
pub open spec fn resolved_params(raws: Seq<RawParamModel>) -> Seq<Result<ParamModel, ErrorModel>>
    decreases raws, 0nat,
{
    Seq::new(
        raws.len(),
        |i: int|
            if 0 <= i < raws.len() {
                resolved_param(raws[i])
            } else {
                Err(ErrorModel::SchemaParseError)
            },
    )
}

/// The schema that a list of descriptions gives: the parameter of each, in
/// order, where the names differ and the types are well formed. Any fault is
/// a `SchemaParseError`.
pub open spec fn resolved_schema(raws: Seq<RawParamModel>) -> Result<Seq<ParamModel>, ErrorModel> {
    match collect(resolved_params(raws)) {
        Ok(params) => if schema_wf(params) {
            Ok(params)
        } else {
            Err(ErrorModel::SchemaParseError)
        },
        Err(_) => Err(ErrorModel::SchemaParseError),
    }
}

/// Resolves each description of a list.
#[verifier::loop_isolation(false)]
fn resolve_params(raws: &Vec<RawParam>) -> (r: Option<Vec<Param>>)
    ensures
        match r {
            Some(params) => collect(resolved_params(raws_view(raws@))) == Ok::<
                Seq<ParamModel>,
                ErrorModel,
            >(params_view(params@)),
            None => collect(resolved_params(raws_view(raws@))) is Err,
        },
    decreases raws, 0nat,
{
    let ghost results = resolved_params(raws_view(raws@));
    let mut params: Vec<Param> = Vec::new();
    let mut i: usize = 0;
    while i < raws.len()
        invariant
            i <= raws.len(),
            params@.len() == i,
            forall|j: int|
                0 <= j < i ==> #[trigger] results[j] == Ok::<ParamModel, ErrorModel>(params@[j]@),
        decreases raws.len() - i,
    {
        match resolve_param(&raws[i]) {
            Ok(param) => {
                params.push(param);
            },
            Err(_) => {
                proof {
                    lemma_collect_first_error(results, i as int);
                }
                return None;
            },
        }
        i = i + 1;
    }
    proof {
        lemma_collect_ok(results);
        assert(Seq::new(results.len(), |i: int| results[i]->Ok_0) =~= params_view(params@));
    }
    Some(params)
}

/// Resolves the description of one parameter.
pub fn resolve_param(raw: &RawParam) -> (r: Result<Param, BridgeError>)
    ensures
        result_view(r) == resolved_param(raw@),
    decreases raw, 1nat,
{
    proof {
        lemma_raw_view(*raw);
    }
    let components = match resolve_params(&raw.components) {
        Some(components) => components,
        None => {
            return Err(BridgeError::SchemaParseError);
        },
    };
    match parse_type_text(raw.kind.as_str(), &components) {
        Some(ty) => Ok(Param { name: raw.name.clone(), ty }),
        None => Err(BridgeError::SchemaParseError),
    }
}

/// Resolves a schema description into a schema.
pub fn resolve_schema(raws: &Vec<RawParam>) -> (r: Result<ParameterSchema, BridgeError>)
    ensures
        result_view(r) == resolved_schema(raws_view(raws@)),
{
    match resolve_params(raws) {
        Some(params) => ParameterSchema::new(params),
        None => Err(BridgeError::SchemaParseError),
    }
}

/// What packing gives the serializer: the strict values that the object
/// gives to the parameters of the described schema, or the first fault of
/// the description and then of the object.
pub open spec fn packed_values(raws: Seq<RawParamModel>, tokens: HostModel) -> Result<
    Seq<ValueModel>,
    ErrorModel,
> {
    match resolved_schema(raws) {
        Ok(schema) => encoded_values(schema, tokens),
        Err(e) => Err(e),
    }
}

/// What unpacking gives the host: the object that names the strict values
/// as the described schema names its parameters, or the first fault of the
/// description and then of the values.
pub open spec fn unpacked_values(raws: Seq<RawParamModel>, values: Seq<ValueModel>) -> Result<
    HostModel,
    ErrorModel,
> {
    match resolved_schema(raws) {
        Ok(schema) => decoded_values(schema, values),
        Err(e) => Err(e),
    }
}

/// Validates the values of a host object against a schema description and
/// gives them as strict values, in the schema's order, ready to be packed
/// into a cell.
pub fn pack_into_cell(params: &Vec<RawParam>, tokens: &HostValue) -> (r: Result<
    Vec<StrictValue>,
    BridgeError,
>)
    ensures
        match r {
            Ok(values) => packed_values(raws_view(params@), tokens@) == Ok::<
                Seq<ValueModel>,
                ErrorModel,
            >(values_view(values@)),
            Err(e) => packed_values(raws_view(params@), tokens@) == Err::<
                Seq<ValueModel>,
                ErrorModel,
            >(e@),
        },
{
    match resolve_schema(params) {
        Ok(schema) => encode(&schema, tokens),
        Err(e) => Err(e),
    }
}

/// Gives the strict values that were unpacked from a cell as a host object,
/// named as the schema description names them. Where the values are values
/// of the described parameters, packing the object gives them again.
pub fn unpack_from_cell(params: &Vec<RawParam>, values: &Vec<StrictValue>) -> (r: Result<
    HostValue,
    BridgeError,
>)
    ensures
        result_view(r) == unpacked_values(raws_view(params@), values_view(values@)),
        r is Ok ==> forall|i: int| 0 <= i < values@.len() ==> reads_back((#[trigger] values@[i])@),
        (resolved_schema(raws_view(params@)) matches Ok(schema) && values_have_types(
            schema,
            values_view(values@),
        )) ==> (r matches Ok(host) && packed_values(raws_view(params@), host@) == Ok::<
            Seq<ValueModel>,
            ErrorModel,
        >(values_view(values@))),
{
    match resolve_schema(params) {
        Ok(schema) => decode(&schema, values),
        Err(e) => Err(e),
    }
}

/// The entry that the known values and the caller's give to a name: the
/// known value where only that is there, the caller's where only that is
/// there, none where neither is, and a `ParameterConflict` where both are.
pub open spec fn merged_entry(
    name: Seq<char>,
    known: Seq<(Seq<char>, HostModel)>,
    input: Seq<(Seq<char>, HostModel)>,
) -> Result<Option<(Seq<char>, HostModel)>, ErrorModel> {
    match lookup(known, name) {
        Some(fixed) => match lookup(input, name) {
            Some(_) => Err(ErrorModel::ParameterConflict(name)),
            None => Ok(Some((name, fixed))),
        },
        None => match lookup(input, name) {
            Some(given) => Ok(Some((name, given))),
            None => Ok(None),
        },
    }
}

/// The entries that are there, in order.
pub open spec fn present<T>(options: Seq<Option<T>>) -> Seq<T>
    decreases options.len(),
{
    if options.len() == 0 {
        Seq::empty()
    } else {
        match options.last() {
            Some(x) => present(options.drop_last()).push(x),
            None => present(options.drop_last()),
        }
    }
}

/// What the known values and the caller's give to each parameter.
pub open spec fn merged_entries(
    schema: Seq<ParamModel>,
    known: Seq<(Seq<char>, HostModel)>,
    input: Seq<(Seq<char>, HostModel)>,
) -> Seq<Result<Option<(Seq<char>, HostModel)>, ErrorModel>> {
    Seq::new(schema.len(), |i: int| merged_entry(schema[i].name, known, input))
}

/// The object that the known values and the caller's make together: for
/// each parameter of the schema, in order, the entry that `merged_entry`
/// gives. The first conflict is the result; a value that is no object is a
/// `TypeMismatch`.
pub open spec fn merged_values(schema: Seq<ParamModel>, known: HostModel, input: HostModel) -> Result<
    HostModel,
    ErrorModel,
> {
    match (known, input) {
        (HostModel::Object(fixed), HostModel::Object(given)) => match collect(
            merged_entries(schema, fixed, given),
        ) {
            Ok(options) => Ok(HostModel::Object(present(options))),
            Err(e) => Err(e),
        },
        _ => Err(ErrorModel::TypeMismatch),
    }
}

/// Every entry of the entries that are there is one of the options.
pub proof fn lemma_present_members<T>(options: Seq<Option<T>>)
    ensures
        forall|k: int|
            0 <= k < present(options).len() ==> exists|j: int|
                0 <= j < options.len() && options[j] == Some(#[trigger] present(options)[k]),
    decreases options.len(),
{
    if options.len() > 0 {
        let head = options.drop_last();
        lemma_present_members(head);
        assert forall|k: int| 0 <= k < present(options).len() implies exists|j: int|
            0 <= j < options.len() && options[j] == Some(#[trigger] present(options)[k]) by {
            if k < present(head).len() {
                let j = choose|j: int|
                    0 <= j < head.len() && head[j] == Some(present(head)[k]);
                assert(options[j] == Some(present(options)[k]));
            } else {
                assert(options[options.len() - 1] == Some(present(options)[k]));
            }
        }
    }
}

/// Where one option holds an entry of a name and no other option holds one
/// of that name, that entry is the one that `lookup` finds among the entries
/// that are there.
pub proof fn lemma_present_lookup(
    options: Seq<Option<(Seq<char>, HostModel)>>,
    i: int,
    name: Seq<char>,
    value: HostModel,
)
    requires
        0 <= i < options.len(),
        options[i] == Some((name, value)),
        forall|j: int|
            0 <= j < options.len() && j != i ==> ((#[trigger] options[j]) matches Some(e) ==> e.0
                != name),
    ensures
        lookup(present(options), name) == Some(value),
    decreases options.len(),
{
    let head = options.drop_last();
    let all = present(options);
    if i == options.len() - 1 {
        lemma_present_members(head);
        assert forall|k: int| 0 <= k < present(head).len() implies (#[trigger] all[k]).0
            != name by {
            let j = choose|j: int| 0 <= j < head.len() && head[j] == Some(present(head)[k]);
            assert(options[j] == Some(all[k]));
        }
        assert(is_first_entry(all, name, present(head).len() as int));
        lemma_lookup_first(all, name, present(head).len() as int);
    } else {
        assert(head[i] == options[i]);
        assert forall|j: int| 0 <= j < head.len() && j != i implies ((#[trigger] head[j]) matches Some(
            e,
        ) ==> e.0 != name) by {
            assert(head[j] == options[j]);
        }
        lemma_present_lookup(head, i, name, value);
        let c = choose|c: int| is_first_entry(present(head), name, c);
        assert(is_first_entry(present(head), name, c));
        lemma_lookup_first(present(head), name, c);
        assert(is_first_entry(all, name, c)) by {
            assert(all[c] == present(head)[c]);
            assert forall|j: int| 0 <= j < c implies (#[trigger] all[j]).0 != name by {
                assert(all[j] == present(head)[j]);
            }
        }
        lemma_lookup_first(all, name, c);
    }
}

/// Known-value precedence: where the values merge, a parameter that the
/// known values fix is absent from the caller's input, and the merged object
/// holds the known value under its name.
pub proof fn lemma_known_values_stand(
    schema: Seq<ParamModel>,
    known: Seq<(Seq<char>, HostModel)>,
    input: Seq<(Seq<char>, HostModel)>,
    i: int,
)
    requires
        schema_wf(schema),
        0 <= i < schema.len(),
        lookup(known, schema[i].name) is Some,
        merged_values(schema, HostModel::Object(known), HostModel::Object(input)) is Ok,
    ensures
        lookup(input, schema[i].name) is None,
        merged_values(
            schema,
            HostModel::Object(known),
            HostModel::Object(input),
        ) matches Ok(HostModel::Object(merged)) && lookup(merged, schema[i].name) == lookup(
            known,
            schema[i].name,
        ),
{
    let results = merged_entries(schema, known, input);
    crate::codec::lemma_collect_values(results);
    let options = collect(results)->Ok_0;
    let name = schema[i].name;
    let value = lookup(known, name)->Some_0;
    assert(results[i] == Ok::<Option<(Seq<char>, HostModel)>, ErrorModel>(options[i]));
    assert forall|j: int| 0 <= j < options.len() && j != i implies ((#[trigger] options[j]) matches Some(
        e,
    ) ==> e.0 != name) by {
        assert(results[j] == Ok::<Option<(Seq<char>, HostModel)>, ErrorModel>(options[j]));
        if j < i {
            assert(schema[j].name != schema[i].name);
        } else {
            assert(schema[i].name != schema[j].name);
        }
    }
    lemma_present_lookup(options, i, name, value);
}

/// A parameter that both the known values and the caller give is a
/// conflict: the values do not merge.
pub proof fn lemma_conflict_is_refused(
    schema: Seq<ParamModel>,
    known: Seq<(Seq<char>, HostModel)>,
    input: Seq<(Seq<char>, HostModel)>,
    i: int,
)
    requires
        0 <= i < schema.len(),
        lookup(known, schema[i].name) is Some,
        lookup(input, schema[i].name) is Some,
    ensures
        merged_values(
            schema,
            HostModel::Object(known),
            HostModel::Object(input),
        ) matches Err(ErrorModel::ParameterConflict(_)),
{
    let results = merged_entries(schema, known, input);
    assert(results[i] is Err);
    lemma_first_conflict(results, schema, known, input, results.len() as int);
    assert(results.take(results.len() as int) =~= results);
}

/// Among the first `n` results of a merge, the first error, if there is
/// one, is a conflict, and gathering them gives it.
proof fn lemma_first_conflict(
    results: Seq<Result<Option<(Seq<char>, HostModel)>, ErrorModel>>,
    schema: Seq<ParamModel>,
    known: Seq<(Seq<char>, HostModel)>,
    input: Seq<(Seq<char>, HostModel)>,
    n: int,
)
    requires
        results == merged_entries(schema, known, input),
        0 <= n <= results.len(),
    ensures
        (exists|j: int| 0 <= j < n && (#[trigger] results[j]) is Err) ==> collect(
            results.take(n),
        ) matches Err(ErrorModel::ParameterConflict(_)),
        (forall|j: int| 0 <= j < n ==> (#[trigger] results[j]) is Ok) ==> collect(
            results.take(n),
        ) is Ok,
    decreases n,
{
    if n > 0 {
        lemma_first_conflict(results, schema, known, input, n - 1);
        assert(results.take(n).drop_last() =~= results.take(n - 1));
        assert(results.take(n).last() == results[n - 1]);
        if exists|j: int| 0 <= j < n && (#[trigger] results[j]) is Err {
            let j = choose|j: int| 0 <= j < n && (#[trigger] results[j]) is Err;
            if j < n - 1 {
                assert(results[j] is Err);
            } else {
                if exists|m: int| 0 <= m < n - 1 && (#[trigger] results[m]) is Err {
                } else {
                    assert(forall|m: int| 0 <= m < n - 1 ==> (#[trigger] results[m]) is Ok);
                }
            }
        }
    } else {
        assert(results.take(0) =~= Seq::empty());
    }
}

/// Combines the values that the contract's state fixes with those of the
/// caller. A known value is never overridden: a parameter that both give is
/// a `ParameterConflict`.
#[verifier::loop_isolation(false)]
pub fn merge_known_values(schema: &ParameterSchema, known: &HostValue, input: &HostValue) -> (r:
    Result<HostValue, BridgeError>)
    ensures
        result_view(r) == merged_values(schema@, known@, input@),
{
    let fixed = match known {
        HostValue::Object(fixed) => fixed,
        _ => {
            return Err(BridgeError::TypeMismatch);
        },
    };
    let given = match input {
        HostValue::Object(given) => given,
        _ => {
            return Err(BridgeError::TypeMismatch);
        },
    };
    proof {
        lemma_object_view(*fixed);
        lemma_object_view(*given);
    }
    let params = schema.params();
    let ghost results = merged_entries(schema@, entries_view(fixed@), entries_view(given@));
    let ghost options = Seq::new(results.len(), |i: int| results[i]->Ok_0);
    let mut merged: Vec<(String, HostValue)> = Vec::new();
    let mut i: usize = 0;
    assert(options.take(0) =~= Seq::empty());
    while i < params.len()
        invariant
            i <= params.len(),
            params_view(params@) == schema@,
            results == merged_entries(schema@, entries_view(fixed@), entries_view(given@)),
            options == Seq::new(results.len(), |i: int| results[i]->Ok_0),
            forall|j: int| 0 <= j < i ==> (#[trigger] results[j]) is Ok,
            entries_view(merged@) == present(options.take(i as int)),
        decreases params.len() - i,
    {
        let name = &params[i].name;
        assert(schema@[i as int].name == name@);
        let in_known = find_entry(fixed, name);
        let in_input = find_entry(given, name);
        proof {
            assert(options.take(i + 1).drop_last() =~= options.take(i as int));
            assert(options.take(i + 1).last() == results[i as int]->Ok_0);
        }
        match in_known {
            Some(value) => {
                if in_input.is_some() {
                    let e = BridgeError::ParameterConflict(name.clone());
                    proof {
                        assert(results[i as int] == Err::<
                            Option<(Seq<char>, HostModel)>,
                            ErrorModel,
                        >(e@));
                        lemma_collect_first_error(results, i as int);
                    }
                    return Err(e);
                }
                let ghost before = entries_view(merged@);
                merged.push((name.clone(), value.duplicate()));
                assert(entries_view(merged@) =~= before.push((name@, value@)));
            },
            None => match in_input {
                Some(value) => {
                    let ghost before = entries_view(merged@);
                    merged.push((name.clone(), value.duplicate()));
                    assert(entries_view(merged@) =~= before.push((name@, value@)));
                },
                None => {},
            },
        }
        i = i + 1;
    }
    proof {
        lemma_collect_ok(results);
        assert(options.take(i as int) =~= options);
        lemma_object_view(merged);
    }
    Ok(HostValue::Object(merged))
}

} // verus!
