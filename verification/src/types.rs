//! Core type representation used throughout checking.

use vstd::prelude::*;

verus! {

broadcast use vstd::std_specs::vec::group_vec_axioms;

/// Numeric family of a primitive type.
#[derive(Debug, Clone, Copy, PartialEq, Eq, Structural)]
pub enum NumericKind {
    SignedInt,
    UnsignedInt,
    Float,
}

/// A type variable introduced during inference.
#[derive(Debug)]
pub struct TypeVar {
    /// Unique variable identifier.
    pub id: usize,
    /// Source-level display name.
    pub name: String,
}

/// A generic parameter of a function signature.
#[derive(Debug)]
pub struct GenericTypeParameter {
    /// Declared parameter name.
    pub name: String,
    /// Inference variable standing for the parameter.
    pub type_var: TypeVar,
    /// Constraint types the parameter must satisfy.
    pub constraints: Vec<CoreType>,
}

/// Resolved core type.
#[derive(Debug)]
pub enum CoreType {
    Int8,
    Int16,
    Int32,
    Int64,
    UInt8,
    UInt16,
    UInt32,
    UInt64,
    Float32,
    Float64,
    String,
    Boolean,
    Unit,
    Variable(TypeVar),
    Array(Box<CoreType>),
    Function {
        generic_params: Vec<GenericTypeParameter>,
        parameters: Vec<CoreType>,
        return_types: Vec<CoreType>,
        error_types: Vec<CoreType>,
    },
    Generic { name: String, type_args: Vec<CoreType> },
}

/// Mathematical model of a core type.
pub ghost enum TypeModel {
    Int8,
    Int16,
    Int32,
    Int64,
    UInt8,
    UInt16,
    UInt32,
    UInt64,
    Float32,
    Float64,
    String,
    Boolean,
    Unit,
    Variable { id: nat, name: Seq<char> },
    Array(Box<TypeModel>),
    Function {
        generic_params: Seq<ParamModel>,
        parameters: Seq<TypeModel>,
        return_types: Seq<TypeModel>,
        error_types: Seq<TypeModel>,
    },
    Generic { name: Seq<char>, type_args: Seq<TypeModel> },
}

/// Mathematical model of a generic parameter.
pub ghost struct ParamModel {
    pub name: Seq<char>,
    pub var_id: nat,
    pub var_name: Seq<char>,
    pub constraints: Seq<TypeModel>,
}

pub open spec fn model_of(t: CoreType) -> TypeModel
    decreases t,
{
    match t {
        CoreType::Int8 => TypeModel::Int8,
        CoreType::Int16 => TypeModel::Int16,
        CoreType::Int32 => TypeModel::Int32,
        CoreType::Int64 => TypeModel::Int64,
        CoreType::UInt8 => TypeModel::UInt8,
        CoreType::UInt16 => TypeModel::UInt16,
        CoreType::UInt32 => TypeModel::UInt32,
        CoreType::UInt64 => TypeModel::UInt64,
        CoreType::Float32 => TypeModel::Float32,
        CoreType::Float64 => TypeModel::Float64,
        CoreType::String => TypeModel::String,
        CoreType::Boolean => TypeModel::Boolean,
        CoreType::Unit => TypeModel::Unit,
        CoreType::Variable(v) => TypeModel::Variable { id: v.id as nat, name: v.name@ },
        CoreType::Array(e) => TypeModel::Array(Box::new(model_of(*e))),
        CoreType::Function { generic_params, parameters, return_types, error_types } =>
            TypeModel::Function {
                generic_params: params_model(generic_params@),
                parameters: models_of(parameters@),
                return_types: models_of(return_types@),
                error_types: models_of(error_types@),
            },
        CoreType::Generic { name, type_args } =>
            TypeModel::Generic { name: name@, type_args: models_of(type_args@) },
    }
}

pub open spec fn models_of(s: Seq<CoreType>) -> Seq<TypeModel>
    decreases s,
{
    if s.len() == 0 {
        Seq::empty()
    } else {
        models_of(s.drop_last()).push(model_of(s.last()))
    }
}

pub open spec fn params_model(s: Seq<GenericTypeParameter>) -> Seq<ParamModel>
    decreases s,
{
    if s.len() == 0 {
        Seq::empty()
    } else {
        let p = s.last();
        params_model(s.drop_last()).push(ParamModel {
            name: p.name@,
            var_id: p.type_var.id as nat,
            var_name: p.type_var.name@,
            constraints: models_of(p.constraints@),
        })
    }
}


/// `models_of` is an elementwise map.
pub proof fn lemma_models_of(s: Seq<CoreType>)
    ensures
        models_of(s).len() == s.len(),
        forall|i: int| 0 <= i < s.len() ==> #[trigger] models_of(s)[i] == model_of(s[i]),
    decreases s.len(),
{
    if s.len() > 0 {
        lemma_models_of(s.drop_last());
    }
}

/// `params_model` is an elementwise map.
pub proof fn lemma_params_model(s: Seq<GenericTypeParameter>)
    ensures
        params_model(s).len() == s.len(),
        forall|i: int| 0 <= i < s.len() ==> #[trigger] params_model(s)[i] == param_model(s[i]),
    decreases s.len(),
{
    if s.len() > 0 {
        lemma_params_model(s.drop_last());
    }
}

/// Model of one generic parameter.
pub open spec fn param_model(p: GenericTypeParameter) -> ParamModel {
    ParamModel {
        name: p.name@,
        var_id: p.type_var.id as nat,
        var_name: p.type_var.name@,
        constraints: models_of(p.constraints@),
    }
}

/// Two sequences with equal lengths and elementwise equal models have equal models.
pub proof fn lemma_models_of_ext(a: Seq<CoreType>, b: Seq<CoreType>)
    requires
        a.len() == b.len(),
        forall|i: int| 0 <= i < a.len() ==> model_of(#[trigger] a[i]) == model_of(b[i]),
    ensures
        models_of(a) == models_of(b),
{
    lemma_models_of(a);
    lemma_models_of(b);
    assert(models_of(a) =~= models_of(b));
}

/// Two parameter sequences with elementwise equal models have equal models.
pub proof fn lemma_params_model_ext(a: Seq<GenericTypeParameter>, b: Seq<GenericTypeParameter>)
    requires
        a.len() == b.len(),
        forall|i: int| 0 <= i < a.len() ==> param_model(#[trigger] a[i]) == param_model(b[i]),
    ensures
        params_model(a) == params_model(b),
{
    lemma_params_model(a);
    lemma_params_model(b);
    assert(params_model(a) =~= params_model(b));
}

impl TypeVar {
    /// Construct a type variable.
    pub fn new(id: usize, name: String) -> (r: TypeVar)
        ensures
            r.id == id,
            r.name@ == name@,
    {
        TypeVar { id, name }
    }

    /// Copy a type variable.
    pub fn duplicate(&self) -> (r: TypeVar)
        ensures
            r.id == self.id,
            r.name@ == self.name@,
    {
        TypeVar { id: self.id, name: self.name.clone() }
    }
}

/// Copy a sequence of core types.
pub fn clone_types(v: &Vec<CoreType>) -> (r: Vec<CoreType>)
    ensures
        models_of(r@) == models_of(v@),
        r@.len() == v@.len(),
    decreases v,
{
    let mut out: Vec<CoreType> = Vec::new();
    let mut i: usize = 0;
    while i < v.len()
        invariant
            i <= v.len(),
            out@.len() == i,
            forall|j: int| 0 <= j < i ==> model_of(#[trigger] out@[j]) == model_of(v@[j]),
        decreases v.len() - i,
    {
        proof {
            vstd::std_specs::vec::axiom_vec_index_decreases(*v, i as int);
        }
        let c = v[i].duplicate();
        out.push(c);
        i = i + 1;
    }
    proof {
        lemma_models_of_ext(out@, v@);
    }
    out
}

/// Structural equality of two type sequences.
pub fn types_equal(a: &Vec<CoreType>, b: &Vec<CoreType>) -> (r: bool)
    ensures
        r == (models_of(a@) == models_of(b@)),
    decreases a,
{
    proof {
        lemma_models_of(a@);
        lemma_models_of(b@);
    }
    if a.len() != b.len() {
        return false;
    }
    let mut i: usize = 0;
    while i < a.len()
        invariant
            i <= a.len(),
            a.len() == b.len(),
            models_of(a@).len() == a@.len(),
            models_of(b@).len() == b@.len(),
            forall|j: int| 0 <= j < a@.len() ==> #[trigger] models_of(a@)[j] == model_of(a@[j]),
            forall|j: int| 0 <= j < b@.len() ==> #[trigger] models_of(b@)[j] == model_of(b@[j]),
            forall|j: int| 0 <= j < i ==> model_of(#[trigger] a@[j]) == model_of(b@[j]),
        decreases a.len() - i,
    {
        proof {
            vstd::std_specs::vec::axiom_vec_index_decreases(*a, i as int);
        }
        if !a[i].equals(&b[i]) {
            assert(models_of(a@)[i as int] != models_of(b@)[i as int]);
            return false;
        }
        i = i + 1;
    }
    proof {
        lemma_models_of_ext(a@, b@);
    }
    true
}

/// Copy a sequence of generic parameters.
pub fn clone_params(v: &Vec<GenericTypeParameter>) -> (r: Vec<GenericTypeParameter>)
    ensures
        params_model(r@) == params_model(v@),
    decreases v,
{
    let mut out: Vec<GenericTypeParameter> = Vec::new();
    let mut i: usize = 0;
    while i < v.len()
        invariant
            i <= v.len(),
            out@.len() == i,
            forall|j: int| 0 <= j < i ==> param_model(#[trigger] out@[j]) == param_model(v@[j]),
        decreases v.len() - i,
    {
        proof {
            vstd::std_specs::vec::axiom_vec_index_decreases(*v, i as int);
        }
        let p = &v[i];
        let c = GenericTypeParameter {
            name: p.name.clone(),
            type_var: p.type_var.duplicate(),
            constraints: clone_types(&p.constraints),
        };
        out.push(c);
        i = i + 1;
    }
    proof {
        lemma_params_model_ext(out@, v@);
    }
    out
}

/// Structural equality of two parameter sequences.
pub fn params_equal(a: &Vec<GenericTypeParameter>, b: &Vec<GenericTypeParameter>) -> (r: bool)
    ensures
        r == (params_model(a@) == params_model(b@)),
    decreases a,
{
    proof {
        lemma_params_model(a@);
        lemma_params_model(b@);
    }
    if a.len() != b.len() {
        return false;
    }
    let mut i: usize = 0;
    while i < a.len()
        invariant
            i <= a.len(),
            a.len() == b.len(),
            params_model(a@).len() == a@.len(),
            params_model(b@).len() == b@.len(),
            forall|j: int| 0 <= j < a@.len() ==> #[trigger] params_model(a@)[j] == param_model(a@[j]),
            forall|j: int| 0 <= j < b@.len() ==> #[trigger] params_model(b@)[j] == param_model(b@[j]),
            forall|j: int| 0 <= j < i ==> param_model(#[trigger] a@[j]) == param_model(b@[j]),
        decreases a.len() - i,
    {
        proof {
            vstd::std_specs::vec::axiom_vec_index_decreases(*a, i as int);
        }
        let p = &a[i];
        let q = &b[i];
        let same = p.name == q.name && p.type_var.id == q.type_var.id
            && p.type_var.name == q.type_var.name && types_equal(&p.constraints, &q.constraints);
        if !same {
            assert(params_model(a@)[i as int] != params_model(b@)[i as int]);
            return false;
        }
        i = i + 1;
    }
    proof {
        lemma_params_model_ext(a@, b@);
    }
    true
}

impl CoreType {
    /// The mathematical model of this type.
    pub open spec fn model(&self) -> TypeModel {
        model_of(*self)
    }

    /// Deep copy preserving the model.
    pub fn duplicate(&self) -> (r: CoreType)
        ensures
            model_of(r) == model_of(*self),
        decreases self,
    {
        match self {
            CoreType::Int8 => CoreType::Int8,
            CoreType::Int16 => CoreType::Int16,
            CoreType::Int32 => CoreType::Int32,
            CoreType::Int64 => CoreType::Int64,
            CoreType::UInt8 => CoreType::UInt8,
            CoreType::UInt16 => CoreType::UInt16,
            CoreType::UInt32 => CoreType::UInt32,
            CoreType::UInt64 => CoreType::UInt64,
            CoreType::Float32 => CoreType::Float32,
            CoreType::Float64 => CoreType::Float64,
            CoreType::String => CoreType::String,
            CoreType::Boolean => CoreType::Boolean,
            CoreType::Unit => CoreType::Unit,
            CoreType::Variable(v) => CoreType::Variable(v.duplicate()),
            CoreType::Array(e) => CoreType::Array(Box::new((**e).duplicate())),
            CoreType::Function { generic_params, parameters, return_types, error_types } =>
                CoreType::Function {
                    generic_params: clone_params(generic_params),
                    parameters: clone_types(parameters),
                    return_types: clone_types(return_types),
                    error_types: clone_types(error_types),
                },
            CoreType::Generic { name, type_args } =>
                CoreType::Generic { name: name.clone(), type_args: clone_types(type_args) },
        }
    }

    /// Structural equality of two types.
    pub fn equals(&self, other: &CoreType) -> (r: bool)
        ensures
            r == (model_of(*self) == model_of(*other)),
        decreases self,
    {
        match (self, other) {
            (CoreType::Int8, CoreType::Int8) => true,
            (CoreType::Int16, CoreType::Int16) => true,
            (CoreType::Int32, CoreType::Int32) => true,
            (CoreType::Int64, CoreType::Int64) => true,
            (CoreType::UInt8, CoreType::UInt8) => true,
            (CoreType::UInt16, CoreType::UInt16) => true,
            (CoreType::UInt32, CoreType::UInt32) => true,
            (CoreType::UInt64, CoreType::UInt64) => true,
            (CoreType::Float32, CoreType::Float32) => true,
            (CoreType::Float64, CoreType::Float64) => true,
            (CoreType::String, CoreType::String) => true,
            (CoreType::Boolean, CoreType::Boolean) => true,
            (CoreType::Unit, CoreType::Unit) => true,
            (CoreType::Variable(a), CoreType::Variable(b)) => a.id == b.id && a.name == b.name,
            (CoreType::Array(a), CoreType::Array(b)) => (**a).equals(&**b),
            (
                CoreType::Function { generic_params: g1, parameters: p1, return_types: r1, error_types: e1 },
                CoreType::Function { generic_params: g2, parameters: p2, return_types: r2, error_types: e2 },
            ) => params_equal(g1, g2) && types_equal(p1, p2) && types_equal(r1, r2) && types_equal(e1, e2),
            (CoreType::Generic { name: n1, type_args: a1 }, CoreType::Generic { name: n2, type_args: a2 }) =>
                *n1 == *n2 && types_equal(a1, a2),
            _ => false,
        }
    }
}


/// Rendered display name of a type model.
pub open spec fn display(m: TypeModel) -> Seq<char>
    decreases m,
{
    match m {
        TypeModel::Int8 => "int8"@,
        TypeModel::Int16 => "int16"@,
        TypeModel::Int32 => "int32"@,
        TypeModel::Int64 => "int64"@,
        TypeModel::UInt8 => "uint8"@,
        TypeModel::UInt16 => "uint16"@,
        TypeModel::UInt32 => "uint32"@,
        TypeModel::UInt64 => "uint64"@,
        TypeModel::Float32 => "float32"@,
        TypeModel::Float64 => "float64"@,
        TypeModel::String => "string"@,
        TypeModel::Boolean => "boolean"@,
        TypeModel::Unit => "unit"@,
        TypeModel::Variable { id, name } => name,
        TypeModel::Array(e) => "["@ + display(*e) + "]"@,
        TypeModel::Function { generic_params, parameters, return_types, error_types } => {
            let head = "fn("@ + display_list(parameters) + ") -> "@ + display_list(return_types);
            if error_types.len() == 0 {
                head
            } else {
                head + " errors "@ + display_list(error_types)
            }
        },
        TypeModel::Generic { name, type_args } => {
            if type_args.len() == 0 {
                name
            } else {
                name + "<"@ + display_list(type_args) + ">"@
            }
        },
    }
}

/// Comma-separated display names.
pub open spec fn display_list(s: Seq<TypeModel>) -> Seq<char>
    decreases s,
{
    if s.len() == 0 {
        Seq::empty()
    } else if s.len() == 1 {
        display(s[0])
    } else {
        display_list(s.drop_last()) + ", "@ + display(s.last())
    }
}

/// Render a comma-separated list of types.
pub fn render_list(v: &Vec<CoreType>) -> (r: String)
    ensures
        r@ == display_list(models_of(v@)),
    decreases v,
{
    proof {
        lemma_models_of(v@);
    }
    let mut out = String::new();
    let mut i: usize = 0;
    while i < v.len()
        invariant
            i <= v.len(),
            models_of(v@).len() == v@.len(),
            forall|j: int| 0 <= j < v@.len() ==> #[trigger] models_of(v@)[j] == model_of(v@[j]),
            out@ == display_list(models_of(v@).take(i as int)),
        decreases v.len() - i,
    {
        proof {
            vstd::std_specs::vec::axiom_vec_index_decreases(*v, i as int);
        }
        let piece = v[i].display_name();
        let ghost ms = models_of(v@);
        proof {
            assert(ms.take(i + 1).drop_last() =~= ms.take(i as int));
            assert(ms.take(i + 1).last() == model_of(v@[i as int]));
        }
        if i > 0 {
            out.append(", ");
        } else {
            assert(ms.take(1) =~= seq![ms[0]]);
        }
        out.append(piece.as_str());
        i = i + 1;
    }
    proof {
        assert(models_of(v@).take(v@.len() as int) =~= models_of(v@));
    }
    out
}

impl CoreType {
    /// Display name of this type, as used in diagnostics and nominal comparisons.
    pub fn display_name(&self) -> (r: String)
        ensures
            r@ == display(model_of(*self)),
        decreases self,
    {
        match self {
            CoreType::Int8 => String::from_str("int8"),
            CoreType::Int16 => String::from_str("int16"),
            CoreType::Int32 => String::from_str("int32"),
            CoreType::Int64 => String::from_str("int64"),
            CoreType::UInt8 => String::from_str("uint8"),
            CoreType::UInt16 => String::from_str("uint16"),
            CoreType::UInt32 => String::from_str("uint32"),
            CoreType::UInt64 => String::from_str("uint64"),
            CoreType::Float32 => String::from_str("float32"),
            CoreType::Float64 => String::from_str("float64"),
            CoreType::String => String::from_str("string"),
            CoreType::Boolean => String::from_str("boolean"),
            CoreType::Unit => String::from_str("unit"),
            CoreType::Variable(v) => v.name.clone(),
            CoreType::Array(e) => {
                let mut out = String::from_str("[");
                let inner = (**e).display_name();
                out.append(inner.as_str());
                out.append("]");
                out
            },
            CoreType::Function { generic_params, parameters, return_types, error_types } => {
                let mut out = String::from_str("fn(");
                let ps = render_list(parameters);
                out.append(ps.as_str());
                out.append(") -> ");
                let rs = render_list(return_types);
                out.append(rs.as_str());
                proof {
                    lemma_models_of(error_types@);
                }
                if error_types.len() > 0 {
                    out.append(" errors ");
                    let es = render_list(error_types);
                    out.append(es.as_str());
                }
                out
            },
            CoreType::Generic { name, type_args } => {
                proof {
                    lemma_models_of(type_args@);
                }
                if type_args.len() == 0 {
                    name.clone()
                } else {
                    let mut out = name.clone();
                    out.append("<");
                    let args = render_list(type_args);
                    out.append(args.as_str());
                    out.append(">");
                    out
                }
            },
        }
    }
}

} // verus!
