//! Specialising generic array intrinsic signatures to a receiver's element type.

use vstd::prelude::*;
use crate::types::{lemma_models_of, model_of, models_of, CoreType, TypeModel};

verus! {

/// Id of the type variable that stands for the element type in array intrinsic signatures.
pub const ARRAY_ELEMENT_VAR_ID: usize = 1000;

/// A signature with the element placeholder replaced by `element` throughout; generic
/// parameters of function types are dropped.
pub open spec fn bound_signature(m: TypeModel, element: TypeModel) -> TypeModel
    decreases m,
{
    match m {
        TypeModel::Variable { id, .. } => if id == ARRAY_ELEMENT_VAR_ID {
            element
        } else {
            m
        },
        TypeModel::Array(x) => TypeModel::Array(Box::new(bound_signature(*x, element))),
        TypeModel::Function { parameters, return_types, error_types, .. } => TypeModel::Function {
            generic_params: Seq::empty(),
            parameters: bound_list(parameters, element),
            return_types: bound_list(return_types, element),
            error_types: bound_list(error_types, element),
        },
        TypeModel::Generic { name, type_args } => TypeModel::Generic { name, type_args: bound_list(type_args, element) },
        _ => m,
    }
}

/// `bound_signature` applied to each type of a list.
pub open spec fn bound_list(s: Seq<TypeModel>, element: TypeModel) -> Seq<TypeModel>
    decreases s,
{
    if s.len() == 0 {
        Seq::empty()
    } else {
        bound_list(s.drop_last(), element).push(bound_signature(s.last(), element))
    }
}

/// Length and elements of a bound list.
proof fn lemma_bound_list(s: Seq<TypeModel>, element: TypeModel)
    ensures
        bound_list(s, element).len() == s.len(),
        forall|i: int| 0 <= i < s.len() ==> #[trigger] bound_list(s, element)[i] == bound_signature(s[i], element),
    decreases s.len(),
{
    if s.len() > 0 {
        lemma_bound_list(s.drop_last(), element);
    }
}

/// Specialise an array intrinsic signature to the receiver's element type.
pub fn bind_array_signature(signature: &CoreType, element_type: &CoreType) -> (r: CoreType)
    ensures
        model_of(r) == bound_signature(model_of(*signature), model_of(*element_type)),
    decreases signature,
{
    match signature {
        CoreType::Variable(type_var) => {
            if type_var.id == ARRAY_ELEMENT_VAR_ID {
                return element_type.duplicate();
            }
            signature.duplicate()
        },
        CoreType::Array(inner) => CoreType::Array(Box::new(bind_array_signature(&**inner, element_type))),
        CoreType::Function { parameters, return_types, error_types, .. } => {
            let bound_parameters = bind_list(parameters, element_type);
            let bound_returns = bind_list(return_types, element_type);
            let bound_errors = bind_list(error_types, element_type);
            let r = CoreType::Function {
                generic_params: Vec::new(),
                parameters: bound_parameters,
                return_types: bound_returns,
                error_types: bound_errors,
            };
            proof {
                assert(crate::types::params_model(r->generic_params@) =~= Seq::empty());
            }
            r
        },
        CoreType::Generic { name, type_args } => CoreType::Generic {
            name: name.clone(),
            type_args: bind_list(type_args, element_type),
        },
        _ => signature.duplicate(),
    }
}

/// Specialise each signature of a list.
fn bind_list(types: &Vec<CoreType>, element_type: &CoreType) -> (r: Vec<CoreType>)
    ensures
        models_of(r@) == bound_list(models_of(types@), model_of(*element_type)),
    decreases types,
{
    proof {
        lemma_models_of(types@);
        lemma_bound_list(models_of(types@), model_of(*element_type));
    }
    let ghost target = bound_list(models_of(types@), model_of(*element_type));
    let mut out: Vec<CoreType> = Vec::new();
    let mut i: usize = 0;
    while i < types.len()
        invariant
            i <= types@.len(),
            out@.len() == i,
            target == bound_list(models_of(types@), model_of(*element_type)),
            target.len() == types@.len(),
            forall|j: int| 0 <= j < types@.len() ==> #[trigger] target[j] == bound_signature(
                model_of(types@[j]),
                model_of(*element_type),
            ),
            forall|j: int| 0 <= j < i ==> #[trigger] model_of(out@[j]) == target[j],
        decreases types@.len() - i,
    {
        proof {
            vstd::std_specs::vec::axiom_vec_index_decreases(*types, i as int);
        }
        let bound = bind_array_signature(&types[i], element_type);
        out.push(bound);
        i = i + 1;
    }
    proof {
        lemma_models_of(out@);
        assert(models_of(out@) =~= target);
    }
    out
}

} // verus!
