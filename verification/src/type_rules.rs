//! Structural type compatibility, conversion of type annotations into core types,
//! pattern-match and cast validation, and fresh type variables.

use vstd::prelude::*;
use crate::ast::{Expr, FieldDef, Parameter, Type, TypeDef, VariantDef};
use crate::checker_helpers::{is_safe_cast, is_valid_cast, safe_cast, valid_cast};
use crate::errors::{diagnostic_span_of, TypeError, Warning};
use crate::text::{owned, str_eq};
use crate::token::Span;
use crate::types::{display, lemma_models_of, model_of, models_of, CoreType, TypeModel, TypeVar};

verus! {

/// The primitive type models.
pub open spec fn is_primitive(m: TypeModel) -> bool {
    match m {
        TypeModel::Variable { .. } | TypeModel::Array(_) | TypeModel::Function { .. } | TypeModel::Generic { .. } => false,
        _ => true,
    }
}

/// Structural compatibility: equal primitives, type variables with the same id,
/// compatible array elements, function types with compatible parameters, returns and
/// errors (generic parameters are not compared), and nominal types with the same name
/// and compatible arguments.
pub open spec fn compatible(a: TypeModel, b: TypeModel) -> bool
    decreases a,
{
    match (a, b) {
        (TypeModel::Variable { id: i, .. }, TypeModel::Variable { id: j, .. }) => i == j,
        (TypeModel::Array(x), TypeModel::Array(y)) => compatible(*x, *y),
        (
            TypeModel::Function { parameters: p1, return_types: r1, error_types: e1, .. },
            TypeModel::Function { parameters: p2, return_types: r2, error_types: e2, .. },
        ) => list_compatible(p1, p2) && list_compatible(r1, r2) && list_compatible(e1, e2),
        (TypeModel::Generic { name: n1, type_args: a1 }, TypeModel::Generic { name: n2, type_args: a2 }) =>
            n1 == n2 && list_compatible(a1, a2),
        _ => is_primitive(a) && a == b,
    }
}

/// Pairwise compatibility of two lists of the same length.
pub open spec fn list_compatible(s: Seq<TypeModel>, t: Seq<TypeModel>) -> bool
    decreases s,
{
    if s.len() != t.len() {
        false
    } else if s.len() == 0 {
        true
    } else {
        list_compatible(s.drop_last(), t.drop_last()) && compatible(s.last(), t.last())
    }
}

/// Every type is compatible with itself.
pub proof fn law_compatible_reflexive(m: TypeModel)
    ensures
        compatible(m, m),
    decreases m,
{
    match m {
        TypeModel::Array(x) => law_compatible_reflexive(*x),
        TypeModel::Function { parameters, return_types, error_types, .. } => {
            lemma_list_compatible_reflexive(parameters);
            lemma_list_compatible_reflexive(return_types);
            lemma_list_compatible_reflexive(error_types);
        },
        TypeModel::Generic { type_args, .. } => lemma_list_compatible_reflexive(type_args),
        _ => {},
    }
}

/// Every list of types is compatible with itself.
proof fn lemma_list_compatible_reflexive(s: Seq<TypeModel>)
    ensures
        list_compatible(s, s),
    decreases s,
{
    if s.len() > 0 {
        lemma_list_compatible_reflexive(s.drop_last());
        law_compatible_reflexive(s.last());
    }
}

/// Compatibility does not depend on the order of the two types.
pub proof fn law_compatible_symmetric(a: TypeModel, b: TypeModel)
    ensures
        compatible(a, b) == compatible(b, a),
    decreases a,
{
    match (a, b) {
        (TypeModel::Array(x), TypeModel::Array(y)) => law_compatible_symmetric(*x, *y),
        (
            TypeModel::Function { parameters: p1, return_types: r1, error_types: e1, .. },
            TypeModel::Function { parameters: p2, return_types: r2, error_types: e2, .. },
        ) => {
            lemma_list_compatible_symmetric(p1, p2);
            lemma_list_compatible_symmetric(r1, r2);
            lemma_list_compatible_symmetric(e1, e2);
        },
        (TypeModel::Generic { type_args: a1, .. }, TypeModel::Generic { type_args: a2, .. }) =>
            lemma_list_compatible_symmetric(a1, a2),
        _ => {},
    }
}

/// List compatibility does not depend on the order of the two lists.
proof fn lemma_list_compatible_symmetric(s: Seq<TypeModel>, t: Seq<TypeModel>)
    ensures
        list_compatible(s, t) == list_compatible(t, s),
    decreases s,
{
    if s.len() == t.len() && s.len() > 0 {
        lemma_list_compatible_symmetric(s.drop_last(), t.drop_last());
        law_compatible_symmetric(s.last(), t.last());
    }
}

/// Check if two core types are structurally compatible, including nested types.
pub fn types_compatible(left: &CoreType, right: &CoreType) -> (r: bool)
    ensures
        r == compatible(model_of(*left), model_of(*right)),
    decreases left,
{
    match (left, right) {
        (CoreType::Variable(a), CoreType::Variable(b)) => a.id == b.id,
        (CoreType::Array(a), CoreType::Array(b)) => types_compatible(&**a, &**b),
        (
            CoreType::Function { parameters: p1, return_types: r1, error_types: e1, .. },
            CoreType::Function { parameters: p2, return_types: r2, error_types: e2, .. },
        ) => lists_compatible(p1, p2) && lists_compatible(r1, r2) && lists_compatible(e1, e2),
        (CoreType::Generic { name: n1, type_args: a1 }, CoreType::Generic { name: n2, type_args: a2 }) =>
            str_eq(n1.as_str(), n2.as_str()) && lists_compatible(a1, a2),
        (CoreType::Int8, CoreType::Int8) | (CoreType::Int16, CoreType::Int16) | (CoreType::Int32, CoreType::Int32)
        | (CoreType::Int64, CoreType::Int64) | (CoreType::UInt8, CoreType::UInt8) | (CoreType::UInt16, CoreType::UInt16)
        | (CoreType::UInt32, CoreType::UInt32) | (CoreType::UInt64, CoreType::UInt64)
        | (CoreType::Float32, CoreType::Float32) | (CoreType::Float64, CoreType::Float64)
        | (CoreType::Boolean, CoreType::Boolean) | (CoreType::String, CoreType::String)
        | (CoreType::Unit, CoreType::Unit) => true,
        _ => false,
    }
}

/// Pairwise compatibility of two type lists.
fn lists_compatible(left: &Vec<CoreType>, right: &Vec<CoreType>) -> (r: bool)
    ensures
        r == list_compatible(models_of(left@), models_of(right@)),
    decreases left,
{
    proof {
        lemma_models_of(left@);
        lemma_models_of(right@);
    }
    let ghost a = models_of(left@);
    let ghost b = models_of(right@);
    if left.len() != right.len() {
        return false;
    }
    let mut i: usize = 0;
    while i < left.len()
        invariant
            i <= left@.len(),
            left@.len() == right@.len(),
            a == models_of(left@),
            b == models_of(right@),
            a.len() == left@.len(),
            b.len() == right@.len(),
            forall|j: int| 0 <= j < left@.len() ==> #[trigger] a[j] == model_of(left@[j]),
            forall|j: int| 0 <= j < right@.len() ==> #[trigger] b[j] == model_of(right@[j]),
            list_compatible(a.take(i as int), b.take(i as int)),
        decreases left@.len() - i,
    {
        proof {
            vstd::std_specs::vec::axiom_vec_index_decreases(*left, i as int);
            assert(a.take(i + 1).drop_last() =~= a.take(i as int));
            assert(b.take(i + 1).drop_last() =~= b.take(i as int));
            assert(a.take(i + 1).last() == a[i as int]);
            assert(b.take(i + 1).last() == b[i as int]);
        }
        if !types_compatible(&left[i], &right[i]) {
            proof {
                lemma_list_compatible_prefix(a, b, i + 1);
            }
            return false;
        }
        i = i + 1;
    }
    proof {
        assert(a.take(left@.len() as int) =~= a);
        assert(b.take(right@.len() as int) =~= b);
    }
    true
}

/// An incompatible prefix makes the whole lists incompatible.
proof fn lemma_list_compatible_prefix(s: Seq<TypeModel>, t: Seq<TypeModel>, k: int)
    requires
        s.len() == t.len(),
        0 <= k <= s.len(),
        !list_compatible(s.take(k), t.take(k)),
    ensures
        !list_compatible(s, t),
    decreases s.len(),
{
    if k < s.len() {
        assert(s.drop_last().take(k) =~= s.take(k));
        assert(t.drop_last().take(k) =~= t.take(k));
        lemma_list_compatible_prefix(s.drop_last(), t.drop_last(), k);
    } else {
        assert(s.take(k) =~= s);
        assert(t.take(k) =~= t);
    }
}

/// The model of a built-in type name (`void` standing for `unit`).
pub open spec fn basic_model(name: Seq<char>) -> Option<TypeModel> {
    if name == "int8"@ {
        Some(TypeModel::Int8)
    } else if name == "int16"@ {
        Some(TypeModel::Int16)
    } else if name == "int32"@ {
        Some(TypeModel::Int32)
    } else if name == "int64"@ {
        Some(TypeModel::Int64)
    } else if name == "uint8"@ {
        Some(TypeModel::UInt8)
    } else if name == "uint16"@ {
        Some(TypeModel::UInt16)
    } else if name == "uint32"@ {
        Some(TypeModel::UInt32)
    } else if name == "uint64"@ {
        Some(TypeModel::UInt64)
    } else if name == "float32"@ {
        Some(TypeModel::Float32)
    } else if name == "float64"@ {
        Some(TypeModel::Float64)
    } else if name == "string"@ {
        Some(TypeModel::String)
    } else if name == "boolean"@ {
        Some(TypeModel::Boolean)
    } else if name == "unit"@ || name == "void"@ {
        Some(TypeModel::Unit)
    } else {
        None
    }
}

/// The core type a type annotation denotes, or the unknown basic name (and where it is)
/// met first, left to right.
pub open spec fn annotation_model(t: Type) -> Result<TypeModel, (Seq<char>, Span)>
    decreases t,
{
    match t {
        Type::Basic { name, span } => match basic_model(name@) {
            Some(m) => Ok(m),
            None => Err((name@, span)),
        },
        Type::Array { element_type, .. } => match annotation_model(*element_type) {
            Ok(m) => Ok(TypeModel::Array(Box::new(m))),
            Err(e) => Err(e),
        },
        Type::Function { parameters, return_types, errors, .. } => match annotation_list_model(parameters@) {
            Err(e) => Err(e),
            Ok(ps) => match annotation_list_model(return_types@) {
                Err(e) => Err(e),
                Ok(rs) => Ok(TypeModel::Function {
                    generic_params: Seq::empty(),
                    parameters: ps,
                    return_types: rs,
                    error_types: match errors {
                        Some(es) => error_list_model(es@),
                        None => Seq::empty(),
                    },
                }),
            },
        },
        Type::Generic { name, type_args, .. } => match annotation_list_model(type_args@) {
            Ok(args) => Ok(TypeModel::Generic { name: name@, type_args: args }),
            Err(e) => Err(e),
        },
    }
}

/// The core types a list of annotations denotes, or the first unknown name.
pub open spec fn annotation_list_model(s: Seq<Type>) -> Result<Seq<TypeModel>, (Seq<char>, Span)>
    decreases s,
{
    if s.len() == 0 {
        Ok(Seq::empty())
    } else {
        match annotation_list_model(s.drop_last()) {
            Err(e) => Err(e),
            Ok(ms) => match annotation_model(s.last()) {
                Ok(m) => Ok(ms.push(m)),
                Err(e) => Err(e),
            },
        }
    }
}

/// The error types of a function annotation: an annotation that names an unknown type
/// stands for the nominal type of that name.
pub open spec fn error_list_model(s: Seq<Type>) -> Seq<TypeModel>
    decreases s,
{
    if s.len() == 0 {
        Seq::empty()
    } else {
        error_list_model(s.drop_last()).push(match annotation_model(s.last()) {
            Ok(m) => m,
            Err((n, _)) => TypeModel::Generic { name: n, type_args: Seq::empty() },
        })
    }
}

/// The annotation conversion result matches the model.
pub open spec fn converted(r: Result<CoreType, TypeError>, m: Result<TypeModel, (Seq<char>, Span)>) -> bool {
    match m {
        Ok(t) => r matches Ok(c) && model_of(c) == t,
        Err((n, s)) => r matches Err(TypeError::TypeNotFound { type_label, span }) && type_label@ == n && span
            == diagnostic_span_of(s),
    }
}

/// The core type of a built-in type name.
fn basic_core_type(name: &str) -> (r: Option<CoreType>)
    ensures
        match basic_model(name@) {
            Some(m) => r matches Some(t) && model_of(t) == m,
            None => r is None,
        },
{
    if str_eq(name, "int8") {
        Some(CoreType::Int8)
    } else if str_eq(name, "int16") {
        Some(CoreType::Int16)
    } else if str_eq(name, "int32") {
        Some(CoreType::Int32)
    } else if str_eq(name, "int64") {
        Some(CoreType::Int64)
    } else if str_eq(name, "uint8") {
        Some(CoreType::UInt8)
    } else if str_eq(name, "uint16") {
        Some(CoreType::UInt16)
    } else if str_eq(name, "uint32") {
        Some(CoreType::UInt32)
    } else if str_eq(name, "uint64") {
        Some(CoreType::UInt64)
    } else if str_eq(name, "float32") {
        Some(CoreType::Float32)
    } else if str_eq(name, "float64") {
        Some(CoreType::Float64)
    } else if str_eq(name, "string") {
        Some(CoreType::String)
    } else if str_eq(name, "boolean") {
        Some(CoreType::Boolean)
    } else if str_eq(name, "unit") || str_eq(name, "void") {
        Some(CoreType::Unit)
    } else {
        None
    }
}

/// Convert a type annotation to the core type it denotes; an unknown basic name fails.
pub fn ast_type_to_core_type(ast_type: &Type) -> (r: Result<CoreType, TypeError>)
    ensures
        converted(r, annotation_model(*ast_type)),
    decreases ast_type,
{
    match ast_type {
        Type::Basic { name, span } => match basic_core_type(name.as_str()) {
            Some(t) => Ok(t),
            None => Err(TypeError::TypeNotFound { type_label: name.clone(), span: TypeError::span_from_span(*span) }),
        },
        Type::Array { element_type, .. } => match ast_type_to_core_type(&**element_type) {
            Ok(t) => Ok(CoreType::Array(Box::new(t))),
            Err(e) => Err(e),
        },
        Type::Function { parameters, return_types, errors, .. } => {
            let ps = match convert_list(parameters) {
                Ok(v) => v,
                Err(e) => return Err(e),
            };
            let rs = match convert_list(return_types) {
                Ok(v) => v,
                Err(e) => return Err(e),
            };
            let es = match errors {
                Some(list) => convert_error_list(list),
                None => {
                    let empty: Vec<CoreType> = Vec::new();
                    proof {
                        lemma_models_of(empty@);
                        assert(models_of(empty@) =~= Seq::<TypeModel>::empty());
                    }
                    empty
                },
            };
            let generic_params = Vec::new();
            proof {
                assert(crate::types::params_model(generic_params@) =~= Seq::<crate::types::ParamModel>::empty());
            }
            Ok(CoreType::Function { generic_params, parameters: ps, return_types: rs, error_types: es })
        },
        Type::Generic { name, type_args, .. } => match convert_list(type_args) {
            Ok(args) => Ok(CoreType::Generic { name: name.clone(), type_args: args }),
            Err(e) => Err(e),
        },
    }
}

/// An error in a prefix of a list is the error of the whole list.
proof fn lemma_annotation_list_prefix(s: Seq<Type>, k: int)
    requires
        0 <= k <= s.len(),
        annotation_list_model(s.take(k)) is Err,
    ensures
        annotation_list_model(s) == annotation_list_model(s.take(k)),
    decreases s.len(),
{
    if k < s.len() {
        assert(s.drop_last().take(k) =~= s.take(k));
        lemma_annotation_list_prefix(s.drop_last(), k);
    } else {
        assert(s.take(k) =~= s);
    }
}

/// Convert annotations in order, stopping at the first unknown name.
fn convert_list(types: &Vec<Type>) -> (r: Result<Vec<CoreType>, TypeError>)
    ensures
        match annotation_list_model(types@) {
            Ok(ms) => r matches Ok(v) && models_of(v@) == ms,
            Err((n, s)) => r matches Err(TypeError::TypeNotFound { type_label, span }) && type_label@ == n
                && span == diagnostic_span_of(s),
        },
    decreases types,
{
    let mut out: Vec<CoreType> = Vec::new();
    let mut i: usize = 0;
    proof {
        assert(types@.take(0) =~= Seq::<Type>::empty());
        lemma_models_of(out@);
        assert(models_of(out@) =~= Seq::<TypeModel>::empty());
    }
    while i < types.len()
        invariant
            i <= types@.len(),
            annotation_list_model(types@.take(i as int)) == Ok::<Seq<TypeModel>, (Seq<char>, Span)>(models_of(out@)),
        decreases types@.len() - i,
    {
        proof {
            vstd::std_specs::vec::axiom_vec_index_decreases(*types, i as int);
            assert(types@.take(i + 1).drop_last() =~= types@.take(i as int));
            assert(types@.take(i + 1).last() == types@[i as int]);
        }
        let converted = ast_type_to_core_type(&types[i]);
        match converted {
            Ok(t) => {
                let ghost before = out@;
                out.push(t);
                proof {
                    assert(out@.drop_last() =~= before);
                }
            },
            Err(e) => {
                proof {
                    lemma_annotation_list_prefix(types@, i + 1);
                }
                return Err(e);
            },
        }
        i = i + 1;
    }
    proof {
        assert(types@.take(types@.len() as int) =~= types@);
    }
    Ok(out)
}

/// Convert the error annotations of a function type; an unknown name becomes the nominal
/// type of that name.
fn convert_error_list(types: &Vec<Type>) -> (r: Vec<CoreType>)
    ensures
        models_of(r@) == error_list_model(types@),
    decreases types,
{
    let mut out: Vec<CoreType> = Vec::new();
    let mut i: usize = 0;
    proof {
        assert(types@.take(0) =~= Seq::<Type>::empty());
        lemma_models_of(out@);
        assert(models_of(out@) =~= Seq::<TypeModel>::empty());
    }
    while i < types.len()
        invariant
            i <= types@.len(),
            error_list_model(types@.take(i as int)) == models_of(out@),
        decreases types@.len() - i,
    {
        proof {
            vstd::std_specs::vec::axiom_vec_index_decreases(*types, i as int);
            assert(types@.take(i + 1).drop_last() =~= types@.take(i as int));
            assert(types@.take(i + 1).last() == types@[i as int]);
        }
        let converted = ast_type_to_core_type(&types[i]);
        let t = match converted {
            Ok(t) => t,
            Err(TypeError::TypeNotFound { type_label, .. }) => {
                let type_args: Vec<CoreType> = Vec::new();
                proof {
                    lemma_models_of(type_args@);
                    assert(models_of(type_args@) =~= Seq::<TypeModel>::empty());
                }
                CoreType::Generic { name: type_label, type_args }
            },
            Err(_) => {
                proof {
                    assert(false);
                }
                CoreType::Unit
            },
        };
        let ghost before = out@;
        let ghost element = model_of(t);
        proof {
            assert(element == match annotation_model(types@[i as int]) {
                Ok(m) => m,
                Err((n, _)) => TypeModel::Generic { name: n, type_args: Seq::empty() },
            });
        }
        out.push(t);
        proof {
            assert(out@.drop_last() =~= before);
            assert(out@.last() == t);
            assert(models_of(out@) == models_of(before).push(element));
        }
        i = i + 1;
    }
    proof {
        assert(types@.take(types@.len() as int) =~= types@);
    }
    out
}

/// The first unknown name among field annotations.
pub open spec fn fields_error(fs: Seq<FieldDef>) -> Option<(Seq<char>, Span)>
    decreases fs.len(),
{
    if fs.len() == 0 {
        None
    } else {
        match fields_error(fs.drop_last()) {
            Some(e) => Some(e),
            None => match annotation_model(fs.last().type_annotation) {
                Err(e) => Some(e),
                Ok(_) => None,
            },
        }
    }
}

/// The first unknown name among the fields of variants.
pub open spec fn variants_error(vs: Seq<VariantDef>) -> Option<(Seq<char>, Span)>
    decreases vs.len(),
{
    if vs.len() == 0 {
        None
    } else {
        match variants_error(vs.drop_last()) {
            Some(e) => Some(e),
            None => fields_error(vs.last().fields@),
        }
    }
}

/// The first unknown name in a type definition.
pub open spec fn type_def_error(d: TypeDef) -> Option<(Seq<char>, Span)> {
    match d {
        TypeDef::Product { fields } => fields_error(fields@),
        TypeDef::Sum { variants } => variants_error(variants@),
        TypeDef::Alias { target_type } => match annotation_model(target_type) {
            Err(e) => Some(e),
            Ok(_) => None,
        },
        TypeDef::Opaque => None,
    }
}

/// An error in a prefix of the fields is the error of all of them.
proof fn lemma_fields_error_prefix(s: Seq<FieldDef>, k: int)
    requires
        0 <= k <= s.len(),
        fields_error(s.take(k)) is Some,
    ensures
        fields_error(s) == fields_error(s.take(k)),
    decreases s.len(),
{
    if k < s.len() {
        assert(s.drop_last().take(k) =~= s.take(k));
        lemma_fields_error_prefix(s.drop_last(), k);
    } else {
        assert(s.take(k) =~= s);
    }
}

/// An error in a prefix of the variants is the error of all of them.
proof fn lemma_variants_error_prefix(s: Seq<VariantDef>, k: int)
    requires
        0 <= k <= s.len(),
        variants_error(s.take(k)) is Some,
    ensures
        variants_error(s) == variants_error(s.take(k)),
    decreases s.len(),
{
    if k < s.len() {
        assert(s.drop_last().take(k) =~= s.take(k));
        lemma_variants_error_prefix(s.drop_last(), k);
    } else {
        assert(s.take(k) =~= s);
    }
}

/// The result of validating a definition whose first unknown name is `e`.
pub open spec fn validated(r: Result<(), TypeError>, e: Option<(Seq<char>, Span)>) -> bool {
    match e {
        Some((n, s)) => r matches Err(TypeError::TypeNotFound { type_label, span }) && type_label@ == n && span
            == diagnostic_span_of(s),
        None => r is Ok,
    }
}

/// Check field annotations in order.
fn validate_fields(fields: &Vec<FieldDef>) -> (r: Result<(), TypeError>)
    ensures
        validated(r, fields_error(fields@)),
{
    let mut i: usize = 0;
    while i < fields.len()
        invariant
            i <= fields@.len(),
            fields_error(fields@.take(i as int)) is None,
        decreases fields@.len() - i,
    {
        proof {
            assert(fields@.take(i + 1).drop_last() =~= fields@.take(i as int));
            assert(fields@.take(i + 1).last() == fields@[i as int]);
        }
        match ast_type_to_core_type(&fields[i].type_annotation) {
            Err(e) => {
                proof {
                    lemma_fields_error_prefix(fields@, i + 1);
                }
                return Err(e);
            },
            Ok(_) => {},
        }
        i = i + 1;
    }
    proof {
        assert(fields@.take(fields@.len() as int) =~= fields@);
    }
    Ok(())
}

/// Validate that every field and alias annotation of a type definition names known types.
pub fn validate_adt_type(type_def: &TypeDef) -> (r: Result<(), TypeError>)
    ensures
        validated(r, type_def_error(*type_def)),
{
    match type_def {
        TypeDef::Product { fields } => validate_fields(fields),
        TypeDef::Sum { variants } => {
            let mut i: usize = 0;
            while i < variants.len()
                invariant
                    type_def_error(*type_def) == variants_error(variants@),
                    i <= variants@.len(),
                    variants_error(variants@.take(i as int)) is None,
                decreases variants@.len() - i,
            {
                proof {
                    assert(variants@.take(i + 1).drop_last() =~= variants@.take(i as int));
                    assert(variants@.take(i + 1).last() == variants@[i as int]);
                }
                let checked = validate_fields(&variants[i].fields);
                if checked.is_err() {
                    proof {
                        lemma_variants_error_prefix(variants@, i + 1);
                    }
                    return checked;
                }
                i = i + 1;
            }
            proof {
                assert(variants@.take(variants@.len() as int) =~= variants@);
            }
            Ok(())
        },
        TypeDef::Alias { target_type } => match ast_type_to_core_type(target_type) {
            Err(e) => Err(e),
            Ok(_) => Ok(()),
        },
        TypeDef::Opaque => Ok(()),
    }
}

/// `e` reports that `found` (at `found_span`) does not match `expected` (at `expected_span`).
pub open spec fn is_mismatch(e: TypeError, expected: TypeModel, expected_span: Span, found: TypeModel, found_span: Span) -> bool {
    e matches TypeError::TypeMismatch { expected: x, found: f, found_span: fs, expected_span: es } && x@ == display(
        expected,
    ) && f@ == display(found) && fs == diagnostic_span_of(found_span) && es == Some(diagnostic_span_of(expected_span))
}

/// Check a match expression: every pattern type must be compatible with the matched
/// type, then every arm type with the first arm's; the first failure is reported.
pub fn type_check_pattern_match(
    matched_type: &CoreType,
    matched_span: Span,
    patterns: &[(CoreType, Span)],
    arm_types: &[(CoreType, Span)],
) -> (r: Result<(), TypeError>)
    ensures
        r is Ok <==> ((forall|i: int| 0 <= i < patterns@.len() ==> compatible(model_of(*matched_type), model_of(#[trigger] patterns@[i].0)))
            && (arm_types@.len() > 0 ==> forall|i: int| 0 <= i < arm_types@.len() ==> compatible(model_of(arm_types@[0].0),
            model_of(#[trigger] arm_types@[i].0)))),
        r matches Err(e) ==> {
            ||| exists|i: int| 0 <= i < patterns@.len() && !compatible(model_of(*matched_type), model_of(#[trigger] patterns@[i].0))
                && (forall|j: int| 0 <= j < i ==> compatible(model_of(*matched_type), model_of(#[trigger] patterns@[j].0)))
                && is_mismatch(e, model_of(*matched_type), matched_span, model_of(patterns@[i].0), patterns@[i].1)
            ||| (forall|j: int| 0 <= j < patterns@.len() ==> compatible(model_of(*matched_type), model_of(#[trigger] patterns@[j].0)))
                && exists|i: int| 0 <= i < arm_types@.len() && !compatible(model_of(arm_types@[0].0), model_of(#[trigger] arm_types@[i].0))
                && (forall|j: int| 0 <= j < i ==> compatible(model_of(arm_types@[0].0), model_of(#[trigger] arm_types@[j].0)))
                && is_mismatch(e, model_of(arm_types@[0].0), arm_types@[0].1, model_of(arm_types@[i].0), arm_types@[i].1)
        },
{
    let mut i: usize = 0;
    while i < patterns.len()
        invariant
            i <= patterns@.len(),
            forall|j: int| 0 <= j < i ==> compatible(model_of(*matched_type), model_of(#[trigger] patterns@[j].0)),
        decreases patterns@.len() - i,
    {
        let (pattern_type, pattern_span) = &patterns[i];
        if !types_compatible(matched_type, pattern_type) {
            return Err(TypeError::TypeMismatch {
                expected: matched_type.display_name(),
                found: pattern_type.display_name(),
                found_span: TypeError::span_from_span(*pattern_span),
                expected_span: Some(TypeError::span_from_span(matched_span)),
            });
        }
        i = i + 1;
    }
    if arm_types.len() > 0 {
        let (first_type, first_span) = &arm_types[0];
        let mut k: usize = 0;
        while k < arm_types.len()
            invariant
                k <= arm_types@.len(),
                arm_types@.len() > 0,
                *first_type == arm_types@[0].0,
                *first_span == arm_types@[0].1,
                forall|j: int| 0 <= j < patterns@.len() ==> compatible(model_of(*matched_type), model_of(#[trigger] patterns@[j].0)),
                forall|j: int| 0 <= j < k ==> compatible(model_of(arm_types@[0].0), model_of(#[trigger] arm_types@[j].0)),
            decreases arm_types@.len() - k,
        {
            let (arm_type, arm_span) = &arm_types[k];
            if !types_compatible(first_type, arm_type) {
                return Err(TypeError::TypeMismatch {
                    expected: first_type.display_name(),
                    found: arm_type.display_name(),
                    found_span: TypeError::span_from_span(*arm_span),
                    expected_span: Some(TypeError::span_from_span(*first_span)),
                });
            }
            k = k + 1;
        }
    }
    Ok(())
}

/// Validate a cast: one that is not valid is reported with both type names.
pub fn validate_cast(from_type: &CoreType, to_type: &CoreType, span: Span) -> (r: Result<(), TypeError>)
    ensures
        r is Ok <==> valid_cast(model_of(*from_type), model_of(*to_type)),
        r matches Err(e) ==> (e matches TypeError::InvalidCast { from_type: f, to_type: t, span: s } && f@ == display(
            model_of(*from_type),
        ) && t@ == display(model_of(*to_type)) && s == diagnostic_span_of(span)),
{
    if !is_valid_cast(from_type, to_type) {
        return Err(TypeError::InvalidCast {
            from_type: from_type.display_name(),
            to_type: to_type.display_name(),
            span: TypeError::span_from_span(span),
        });
    }
    Ok(())
}

/// Validate a cast and record a warning for a valid cast that is not safe.
pub fn validate_cast_with_warnings(
    warnings: &mut Vec<Warning>,
    from_type: &CoreType,
    to_type: &CoreType,
    span: Span,
) -> (r: Result<(), TypeError>)
    ensures
        r is Ok <==> valid_cast(model_of(*from_type), model_of(*to_type)),
        r matches Err(e) ==> (e matches TypeError::InvalidCast { from_type: f, to_type: t, span: s } && f@ == display(
            model_of(*from_type),
        ) && t@ == display(model_of(*to_type)) && s == diagnostic_span_of(span)),
        r is Err || safe_cast(model_of(*from_type), model_of(*to_type)) ==> final(warnings)@ == old(warnings)@,
        r is Ok && !safe_cast(model_of(*from_type), model_of(*to_type)) ==> {
            &&& final(warnings)@.len() == old(warnings)@.len() + 1
            &&& final(warnings)@.drop_last() == old(warnings)@
            &&& final(warnings)@.last() matches Warning::UnsafeCast { from_type: f, to_type: t, span: s, suppression_annotation }
                && f@ == display(model_of(*from_type)) && t@ == display(model_of(*to_type))
                && s == diagnostic_span_of(span) && suppression_annotation is None
        },
{
    let checked = validate_cast(from_type, to_type, span);
    if checked.is_err() {
        return checked;
    }
    if !is_safe_cast(from_type, to_type) {
        warnings.push(Warning::UnsafeCast {
            from_type: from_type.display_name(),
            to_type: to_type.display_name(),
            span: TypeError::span_from_span(span),
            suppression_annotation: None,
        });
    }
    Ok(())
}

/// The decimal digits of a number.
pub open spec fn decimal(n: nat) -> Seq<char>
    decreases n,
{
    if n < 10 {
        seq![digit_char(n)]
    } else {
        decimal(n / 10).push(digit_char(n % 10))
    }
}

/// The character of one decimal digit.
pub open spec fn digit_char(d: nat) -> char {
    if d == 0 {
        '0'
    } else if d == 1 {
        '1'
    } else if d == 2 {
        '2'
    } else if d == 3 {
        '3'
    } else if d == 4 {
        '4'
    } else if d == 5 {
        '5'
    } else if d == 6 {
        '6'
    } else if d == 7 {
        '7'
    } else if d == 8 {
        '8'
    } else {
        '9'
    }
}

/// The one-character string of a decimal digit.
fn digit_str(d: usize) -> (r: &'static str)
    requires
        d < 10,
    ensures
        r@ == seq![digit_char(d as nat)],
{
    if d == 0 {
        proof { reveal_strlit("0"); }
        "0"
    } else if d == 1 {
        proof { reveal_strlit("1"); }
        "1"
    } else if d == 2 {
        proof { reveal_strlit("2"); }
        "2"
    } else if d == 3 {
        proof { reveal_strlit("3"); }
        "3"
    } else if d == 4 {
        proof { reveal_strlit("4"); }
        "4"
    } else if d == 5 {
        proof { reveal_strlit("5"); }
        "5"
    } else if d == 6 {
        proof { reveal_strlit("6"); }
        "6"
    } else if d == 7 {
        proof { reveal_strlit("7"); }
        "7"
    } else if d == 8 {
        proof { reveal_strlit("8"); }
        "8"
    } else {
        proof { reveal_strlit("9"); }
        "9"
    }
}

/// Decimal rendering of a number.
pub fn decimal_string(n: usize) -> (r: String)
    ensures
        r@ == decimal(n as nat),
    decreases n,
{
    if n < 10 {
        owned(digit_str(n))
    } else {
        let mut s = decimal_string(n / 10);
        s.append(digit_str(n % 10));
        s
    }
}

/// The source of fresh type variables: each gets the next identifier.
#[derive(Debug)]
pub struct TypeVarSupply {
    next_var_id: usize,
}

impl TypeVarSupply {
    /// Identifier the next fresh variable receives.
    pub closed spec fn next_id(&self) -> usize {
        self.next_var_id
    }

    /// A supply starting at identifier 0.
    pub fn new() -> (r: Self)
        ensures
            r.next_id() == 0,
    {
        TypeVarSupply { next_var_id: 0 }
    }

    /// A fresh type variable named `name`; fails, changing nothing, when the identifier
    /// counter would overflow.
    pub fn fresh_type_var(&mut self, name: String, span: Span) -> (r: Result<CoreType, TypeError>)
        ensures
            old(self).next_id() < usize::MAX ==> {
                &&& r matches Ok(t) && model_of(t) == (TypeModel::Variable { id: old(self).next_id() as nat, name: name@ })
                &&& final(self).next_id() == old(self).next_id() + 1
            },
            old(self).next_id() == usize::MAX ==> {
                &&& r matches Err(TypeError::ConstraintSolvingFailed { reason, span: s }) && reason@
                    == "type variable counter overflow"@ && s == diagnostic_span_of(span)
                &&& final(self).next_id() == old(self).next_id()
            },
    {
        let var = TypeVar::new(self.next_var_id, name);
        match self.next_var_id.checked_add(1) {
            Some(next) => {
                self.next_var_id = next;
                Ok(CoreType::Variable(var))
            },
            None => Err(TypeError::ConstraintSolvingFailed {
                reason: owned("type variable counter overflow"),
                span: TypeError::span_from_span(span),
            }),
        }
    }

    /// A fresh type variable named `t` followed by its identifier.
    pub fn fresh_type_var_auto(&mut self, span: Span) -> (r: Result<CoreType, TypeError>)
        ensures
            old(self).next_id() < usize::MAX ==> {
                &&& r matches Ok(t) && model_of(t) == (TypeModel::Variable {
                    id: old(self).next_id() as nat,
                    name: "t"@ + decimal(old(self).next_id() as nat),
                })
                &&& final(self).next_id() == old(self).next_id() + 1
            },
            old(self).next_id() == usize::MAX ==> {
                &&& r matches Err(TypeError::ConstraintSolvingFailed { reason, span: s }) && reason@
                    == "type variable counter overflow"@ && s == diagnostic_span_of(span)
                &&& final(self).next_id() == old(self).next_id()
            },
    {
        let mut name = owned("t");
        let digits = decimal_string(self.next_var_id);
        name.append(digits.as_str());
        self.fresh_type_var(name, span)
    }
}

/// Declared types of a lambda's parameters.
pub open spec fn param_types(params: Seq<Parameter>) -> Seq<Type> {
    params.map_values(|p: Parameter| p.param_type)
}

/// The function type a lambda initializer declares, or the first unknown type name in its
/// signature; `None` for another initializer. Error names stand for nominal types.
pub open spec fn lambda_signature(e: Expr) -> Option<Result<TypeModel, (Seq<char>, Span)>> {
    match e {
        Expr::Lambda { params, return_types, error_types, .. } => Some(
            match annotation_list_model(param_types(params@)) {
                Err(f) => Err(f),
                Ok(ps) => match annotation_list_model(return_types@) {
                    Err(f) => Err(f),
                    Ok(rs) => Ok(
                        TypeModel::Function {
                            generic_params: Seq::empty(),
                            parameters: ps,
                            return_types: rs,
                            error_types: error_types@.map_values(
                                |n: String| TypeModel::Generic { name: n@, type_args: Seq::empty() },
                            ),
                        },
                    ),
                },
            },
        ),
        _ => None,
    }
}

/// Convert the declared parameter types in order, stopping at the first unknown name.
fn convert_param_types(params: &Vec<Parameter>) -> (r: Result<Vec<CoreType>, TypeError>)
    ensures
        match annotation_list_model(param_types(params@)) {
            Ok(ms) => r matches Ok(v) && models_of(v@) == ms,
            Err((n, s)) => r matches Err(TypeError::TypeNotFound { type_label, span }) && type_label@ == n
                && span == diagnostic_span_of(s),
        },
{
    let ghost ts = param_types(params@);
    let mut out: Vec<CoreType> = Vec::new();
    let mut i: usize = 0;
    proof {
        assert(ts.take(0) =~= Seq::<Type>::empty());
        lemma_models_of(out@);
        assert(models_of(out@) =~= Seq::<TypeModel>::empty());
    }
    while i < params.len()
        invariant
            i <= params@.len(),
            ts == param_types(params@),
            ts.len() == params@.len(),
            annotation_list_model(ts.take(i as int)) == Ok::<Seq<TypeModel>, (Seq<char>, Span)>(models_of(out@)),
        decreases params@.len() - i,
    {
        proof {
            assert(ts.take(i + 1).drop_last() =~= ts.take(i as int));
            assert(ts.take(i + 1).last() == params@[i as int].param_type);
        }
        match ast_type_to_core_type(&params[i].param_type) {
            Ok(t) => {
                let ghost before = out@;
                out.push(t);
                proof {
                    assert(out@.drop_last() =~= before);
                }
            },
            Err(e) => {
                proof {
                    lemma_annotation_list_prefix(ts, i + 1);
                }
                return Err(e);
            },
        }
        i = i + 1;
    }
    proof {
        assert(ts.take(params@.len() as int) =~= ts);
    }
    Ok(out)
}

/// The function type a lambda initializer declares, for registering it before its body
/// is checked; `Ok(None)` for any other initializer.
pub fn lambda_signature_type(initializer: &Expr) -> (r: Result<Option<CoreType>, TypeError>)
    ensures
        match lambda_signature(*initializer) {
            None => r matches Ok(None),
            Some(Ok(m)) => r matches Ok(Some(t)) && model_of(t) == m,
            Some(Err((n, s))) => r matches Err(TypeError::TypeNotFound { type_label, span }) && type_label@ == n
                && span == diagnostic_span_of(s),
        },
{
    let (params, return_types, error_types) = match initializer {
        Expr::Lambda { params, return_types, error_types, .. } => (params, return_types, error_types),
        _ => {
            return Ok(None);
        },
    };
    let parameter_types = match convert_param_types(params) {
        Ok(v) => v,
        Err(e) => {
            return Err(e);
        },
    };
    let return_core_types = match convert_list(return_types) {
        Ok(v) => v,
        Err(e) => {
            return Err(e);
        },
    };
    let mut error_core_types: Vec<CoreType> = Vec::new();
    let mut i: usize = 0;
    while i < error_types.len()
        invariant
            i <= error_types@.len(),
            error_core_types@.len() == i,
            forall|j: int| 0 <= j < i ==> #[trigger] model_of(error_core_types@[j]) == (TypeModel::Generic {
                name: error_types@[j]@,
                type_args: Seq::empty(),
            }),
        decreases error_types@.len() - i,
    {
        let type_args: Vec<CoreType> = Vec::new();
        proof {
            assert(models_of(type_args@) =~= Seq::<TypeModel>::empty());
        }
        error_core_types.push(CoreType::Generic { name: owned(error_types[i].as_str()), type_args });
        i = i + 1;
    }
    proof {
        lemma_models_of(error_core_types@);
        assert(models_of(error_core_types@) =~= error_types@.map_values(
            |n: String| TypeModel::Generic { name: n@, type_args: Seq::empty() },
        ));
    }
    let r = CoreType::Function {
        generic_params: Vec::new(),
        parameters: parameter_types,
        return_types: return_core_types,
        error_types: error_core_types,
    };
    proof {
        assert(crate::types::params_model(r->generic_params@) =~= Seq::empty());
    }
    Ok(Some(r))
}

} // verus!
