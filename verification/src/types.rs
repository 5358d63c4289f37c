//! The strict types of contract parameters, and parameter schemas.

use vstd::prelude::*;

verus! {

/// The shape of one contract parameter.
#[derive(Debug, PartialEq, Eq)]
pub enum StrictType {
    /// A truth value.
    Bool,
    /// An integer of `width` bits, from 1 to 256.
    Int { width: u16, signed: bool },
    /// An integer of variable length, held in fewer than `size` bytes; `size`
    /// is 16 or 32.
    VarInt { size: u8, signed: bool },
    /// An account address.
    Address,
    /// Bytes of any number.
    Bytes,
    /// Bytes of the given number.
    FixedBytes(usize),
    /// A text.
    Text,
    /// A cell of the ledger, as the bytes of its serialization.
    Cell,
    /// An associative map from keys, integers or addresses, to values.
    Mapping(Box<StrictType>, Box<StrictType>),
    /// A list of any length.
    Array(Box<StrictType>),
    /// A list of the given length.
    FixedArray(Box<StrictType>, usize),
    /// Named values, in order.
    Tuple(Vec<Param>),
    /// A value that may be absent.
    Optional(Box<StrictType>),
}

/// A named parameter.
#[derive(Debug, PartialEq, Eq)]
pub struct Param {
    pub name: String,
    pub ty: StrictType,
}

/// A `StrictType` as a mathematical value.
pub enum TypeModel {
    Bool,
    Int { width: nat, signed: bool },
    VarInt { size: nat, signed: bool },
    Address,
    Bytes,
    FixedBytes(nat),
    Text,
    Cell,
    Mapping(Box<TypeModel>, Box<TypeModel>),
    Array(Box<TypeModel>),
    FixedArray(Box<TypeModel>, nat),
    Tuple(Seq<ParamModel>),
    Optional(Box<TypeModel>),
}

/// A `Param` as a mathematical value.
pub struct ParamModel {
    pub name: Seq<char>,
    pub ty: TypeModel,
}

/// The mathematical value of a type.
pub open spec fn type_model(ty: StrictType) -> TypeModel
    decreases ty,
{
    match ty {
        StrictType::Bool => TypeModel::Bool,
        StrictType::Int { width, signed } => TypeModel::Int { width: width as nat, signed },
        StrictType::VarInt { size, signed } => TypeModel::VarInt { size: size as nat, signed },
        StrictType::Address => TypeModel::Address,
        StrictType::Bytes => TypeModel::Bytes,
        StrictType::FixedBytes(n) => TypeModel::FixedBytes(n as nat),
        StrictType::Text => TypeModel::Text,
        StrictType::Cell => TypeModel::Cell,
        StrictType::Mapping(key, value) => TypeModel::Mapping(
            Box::new(type_model(*key)),
            Box::new(type_model(*value)),
        ),
        StrictType::Array(item) => TypeModel::Array(Box::new(type_model(*item))),
        StrictType::FixedArray(item, n) => TypeModel::FixedArray(
            Box::new(type_model(*item)),
            n as nat,
        ),
        StrictType::Tuple(params) => TypeModel::Tuple(
            Seq::new(
                params@.len(),
                |i: int|
                    if 0 <= i < params@.len() {
                        ParamModel { name: params@[i].name@, ty: type_model(params@[i].ty) }
                    } else {
                        arbitrary()
                    },
            ),
        ),
        StrictType::Optional(inner) => TypeModel::Optional(Box::new(type_model(*inner))),
    }
}

impl View for StrictType {
    type V = TypeModel;

    open spec fn view(&self) -> TypeModel {
        type_model(*self)
    }
}

impl View for Param {
    type V = ParamModel;

    open spec fn view(&self) -> ParamModel {
        ParamModel { name: self.name@, ty: self.ty@ }
    }
}

/// The parameters of a list as mathematical values.
pub open spec fn params_view(params: Seq<Param>) -> Seq<ParamModel> {
    Seq::new(params.len(), |i: int| params[i]@)
}

/// Whether no two parameters have the same name.
pub open spec fn names_distinct(params: Seq<ParamModel>) -> bool {
    forall|i: int, j: int|
        0 <= i < j < params.len() ==> (#[trigger] params[i]).name != (#[trigger] params[j]).name
}

impl TypeModel {
    /// The number of bits of an integer type's range: the width of a fixed
    /// integer, eight for each byte of a variable one.
    pub open spec fn int_bits(self) -> nat {
        match self {
            TypeModel::Int { width, .. } => width,
            TypeModel::VarInt { size, .. } => if size >= 1 {
                (8 * (size - 1)) as nat
            } else {
                0
            },
            _ => 0,
        }
    }

    /// Whether the type can be the key of a map: an integer or an address.
    pub open spec fn is_key(self) -> bool {
        self is Int || self is Address
    }

    /// Whether the type is well formed: widths and sizes are in range, map
    /// keys are integers or addresses, and the names of a tuple differ.
    pub open spec fn wf(self) -> bool
        decreases self,
    {
        match self {
            TypeModel::Int { width, .. } => 1 <= width <= 256,
            TypeModel::VarInt { size, .. } => size == 16 || size == 32,
            TypeModel::Mapping(key, value) => key.is_key() && key.wf() && value.wf(),
            TypeModel::Array(item) => item.wf(),
            TypeModel::FixedArray(item, _) => item.wf(),
            TypeModel::Tuple(params) => names_distinct(params) && forall|i: int|
                0 <= i < params.len() ==> (#[trigger] params[i]).ty.wf(),
            TypeModel::Optional(inner) => inner.wf(),
            _ => true,
        }
    }
}

/// Whether a list of parameters is a schema: the names differ and the types
/// are well formed.
pub open spec fn schema_wf(params: Seq<ParamModel>) -> bool {
    TypeModel::Tuple(params).wf()
}

/// The view of a tuple type is the tuple of the views of its parameters.
pub proof fn lemma_tuple_type_view(params: Vec<Param>)
    ensures
        StrictType::Tuple(params)@ == TypeModel::Tuple(params_view(params@)),
{
    assert(StrictType::Tuple(params)@->Tuple_0 =~= params_view(params@));
}

impl StrictType {
    /// A copy of the type.
    #[verifier::loop_isolation(false)]
    pub fn duplicate(&self) -> (r: StrictType)
        ensures
            r@ == self@,
        decreases self,
    {
        match self {
            StrictType::Bool => StrictType::Bool,
            StrictType::Int { width, signed } => StrictType::Int { width: *width, signed: *signed },
            StrictType::VarInt { size, signed } => StrictType::VarInt {
                size: *size,
                signed: *signed,
            },
            StrictType::Address => StrictType::Address,
            StrictType::Bytes => StrictType::Bytes,
            StrictType::FixedBytes(n) => StrictType::FixedBytes(*n),
            StrictType::Text => StrictType::Text,
            StrictType::Cell => StrictType::Cell,
            StrictType::Mapping(key, value) => StrictType::Mapping(
                Box::new(key.duplicate()),
                Box::new(value.duplicate()),
            ),
            StrictType::Array(item) => StrictType::Array(Box::new(item.duplicate())),
            StrictType::FixedArray(item, n) => StrictType::FixedArray(
                Box::new(item.duplicate()),
                *n,
            ),
            StrictType::Tuple(params) => {
                let mut copy: Vec<Param> = Vec::new();
                let mut i: usize = 0;
                while i < params.len()
                    invariant
                        i <= params.len(),
                        copy@.len() == i,
                        forall|j: int| 0 <= j < i ==> (#[trigger] copy@[j])@ == params@[j]@,
                    decreases params.len() - i,
                {
                    let ty = params[i].ty.duplicate();
                    copy.push(Param { name: params[i].name.clone(), ty });
                    i = i + 1;
                }
                proof {
                    lemma_tuple_type_view(copy);
                    lemma_tuple_type_view(*params);
                    assert(params_view(copy@) =~= params_view(params@));
                }
                StrictType::Tuple(copy)
            },
            StrictType::Optional(inner) => StrictType::Optional(Box::new(inner.duplicate())),
        }
    }
}

/// Whether the name of parameter `i` differs from the names of all the
/// parameters before it.
fn name_is_new(params: &Vec<Param>, i: usize) -> (r: bool)
    requires
        i < params.len(),
    ensures
        r == (forall|j: int| 0 <= j < i ==> (#[trigger] params@[j]).name@ != params@[i as int].name@),
{
    let mut j: usize = 0;
    while j < i
        invariant
            j <= i < params.len(),
            forall|m: int| 0 <= m < j ==> (#[trigger] params@[m]).name@ != params@[i as int].name@,
        decreases i - j,
    {
        if params[j].name == params[i].name {
            return false;
        }
        j = j + 1;
    }
    true
}

/// Whether a type is well formed.
#[verifier::loop_isolation(false)]
pub fn is_well_formed(ty: &StrictType) -> (r: bool)
    ensures
        r == ty@.wf(),
    decreases ty,
{
    match ty {
        StrictType::Int { width, .. } => 1 <= *width && *width <= 256,
        StrictType::VarInt { size, .. } => *size == 16 || *size == 32,
        StrictType::Mapping(key, value) => {
            let key_ok = match &**key {
                StrictType::Int { .. } => true,
                StrictType::Address => true,
                _ => false,
            };
            key_ok && is_well_formed(key) && is_well_formed(value)
        },
        StrictType::Array(item) => is_well_formed(item),
        StrictType::FixedArray(item, _) => is_well_formed(item),
        StrictType::Optional(inner) => is_well_formed(inner),
        StrictType::Tuple(params) => {
            proof {
                lemma_tuple_type_view(*params);
            }
            let ghost model = params_view(params@);
            let mut i: usize = 0;
            while i < params.len()
                invariant
                    i <= params.len(),
                    forall|a: int, b: int|
                        0 <= a < b < i ==> (#[trigger] model[a]).name != (#[trigger] model[b]).name,
                    forall|a: int| 0 <= a < i ==> (#[trigger] model[a]).ty.wf(),
                decreases params.len() - i,
            {
                if !name_is_new(params, i) {
                    proof {
                        let j = choose|j: int|
                            0 <= j < i && (#[trigger] params@[j]).name@ == params@[i as int].name@;
                        assert(model[j].name == model[i as int].name);
                    }
                    return false;
                }
                if !is_well_formed(&params[i].ty) {
                    assert(!model[i as int].ty.wf());
                    return false;
                }
                proof {
                    assert forall|a: int, b: int| 0 <= a < b < i + 1 implies (#[trigger] model[a]).name
                        != (#[trigger] model[b]).name by {
                        if b == i {
                            assert(params@[a].name@ != params@[i as int].name@);
                        }
                    }
                }
                i = i + 1;
            }
            true
        },
        _ => true,
    }
}

/// An ordered list of named parameters with distinct names and well-formed
/// types.
#[derive(Debug, PartialEq, Eq)]
pub struct ParameterSchema {
    tuple: StrictType,
}

impl View for ParameterSchema {
    type V = Seq<ParamModel>;

    closed spec fn view(&self) -> Seq<ParamModel> {
        self.tuple@->Tuple_0
    }
}

impl ParameterSchema {
    #[verifier::type_invariant]
    spec fn inv(self) -> bool {
        self.tuple is Tuple && self.tuple@.wf()
    }

    /// The schema of the given parameters, or a `SchemaParseError` where two
    /// of them have the same name or a type is not well formed.
    pub fn new(params: Vec<Param>) -> (r: Result<ParameterSchema, crate::error::BridgeError>)
        ensures
            schema_wf(params_view(params@)) ==> (r matches Ok(schema) && schema@ == params_view(
                params@,
            )),
            !schema_wf(params_view(params@)) ==> r == Err::<
                ParameterSchema,
                crate::error::BridgeError,
            >(crate::error::BridgeError::SchemaParseError),
    {
        proof {
            lemma_tuple_type_view(params);
        }
        let tuple = StrictType::Tuple(params);
        if is_well_formed(&tuple) {
            Ok(ParameterSchema { tuple })
        } else {
            Err(crate::error::BridgeError::SchemaParseError)
        }
    }

    /// The schema as a tuple type.
    pub fn as_tuple(&self) -> (r: &StrictType)
        ensures
            r@ == TypeModel::Tuple(self@),
            schema_wf(self@),
    {
        proof {
            use_type_invariant(self);
        }
        &self.tuple
    }

    /// The parameters, in order.
    pub fn params(&self) -> (r: &Vec<Param>)
        ensures
            params_view(r@) == self@,
            schema_wf(self@),
    {
        proof {
            use_type_invariant(self);
        }
        match &self.tuple {
            StrictType::Tuple(params) => {
                proof {
                    lemma_tuple_type_view(*params);
                }
                params
            },
            _ => vstd::pervasive::unreached(),
        }
    }
}

} // verus!
