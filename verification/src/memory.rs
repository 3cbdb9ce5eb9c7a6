//! Memory layout information for types (hot reload ABI checks).

use vstd::prelude::*;
use crate::types::{lemma_models_of, lemma_params_model, model_of, models_of, param_model, params_model, CoreType,
    GenericTypeParameter, ParamModel, TypeModel};

verus! {

/// Memory layout information for a type.
#[derive(Debug, Clone, Copy, PartialEq, Eq, Hash, Structural)]
pub struct MemoryLayout {
    /// Size of the type in bytes.
    pub size: usize,
    /// Alignment requirement in bytes.
    pub align: usize,
}

/// Layout of a type model; pointer-backed types use the machine word.
pub open spec fn layout_of(m: TypeModel) -> MemoryLayout {
    match m {
        TypeModel::Int8 | TypeModel::UInt8 | TypeModel::Boolean => MemoryLayout { size: 1, align: 1 },
        TypeModel::Int16 | TypeModel::UInt16 => MemoryLayout { size: 2, align: 2 },
        TypeModel::Int32 | TypeModel::UInt32 | TypeModel::Float32 => MemoryLayout { size: 4, align: 4 },
        TypeModel::Int64 | TypeModel::UInt64 | TypeModel::Float64 => MemoryLayout { size: 8, align: 8 },
        TypeModel::Unit | TypeModel::Variable { .. } => MemoryLayout { size: 0, align: 1 },
        _ => MemoryLayout {
            size: vstd::layout::size_of_as_usize::<usize>(),
            align: vstd::layout::align_of_as_usize::<usize>(),
        },
    }
}

impl CoreType {
    /// Get the memory layout for this type.
    pub fn memory_layout(&self) -> (r: MemoryLayout)
        ensures
            r == layout_of(model_of(*self)),
    {
        match self {
            CoreType::Int8 | CoreType::UInt8 | CoreType::Boolean => MemoryLayout { size: 1, align: 1 },
            CoreType::Int16 | CoreType::UInt16 => MemoryLayout { size: 2, align: 2 },
            CoreType::Int32 | CoreType::UInt32 | CoreType::Float32 => MemoryLayout { size: 4, align: 4 },
            CoreType::Int64 | CoreType::UInt64 | CoreType::Float64 => MemoryLayout { size: 8, align: 8 },
            CoreType::Unit | CoreType::Variable(_) => MemoryLayout { size: 0, align: 1 },
            _ => MemoryLayout {
                size: core::mem::size_of::<usize>(),
                align: core::mem::align_of::<usize>(),
            },
        }
    }

    /// Returns the inner element type if this core type is an array.
    pub fn array_element_type(&self) -> (r: Option<&CoreType>)
        ensures
            (self is Array) ==> r == Some(&*self->Array_0),
            !(self is Array) ==> r is None,
    {
        match self {
            CoreType::Array(element_type) => Some(&**element_type),
            _ => None,
        }
    }
}

/// A value of this type owns reference-counted children that must be released: strings,
/// arrays and nominal types do, and so does a function type any of whose parameter,
/// return, error or generic-constraint types does.
pub open spec fn requires_drop(m: TypeModel) -> bool
    decreases m,
{
    match m {
        TypeModel::String | TypeModel::Array(_) | TypeModel::Generic { .. } => true,
        TypeModel::Function { generic_params, parameters, return_types, error_types } => any_requires_drop(parameters)
            || any_requires_drop(return_types) || any_requires_drop(error_types) || any_param_requires_drop(generic_params),
        _ => false,
    }
}

/// One of `s` requires a drop.
pub open spec fn any_requires_drop(s: Seq<TypeModel>) -> bool
    decreases s,
{
    if s.len() == 0 {
        false
    } else {
        any_requires_drop(s.drop_last()) || requires_drop(s.last())
    }
}

/// One constraint of one of the generic parameters `s` requires a drop.
pub open spec fn any_param_requires_drop(s: Seq<ParamModel>) -> bool
    decreases s,
{
    if s.len() == 0 {
        false
    } else {
        any_param_requires_drop(s.drop_last()) || any_requires_drop(s.last().constraints)
    }
}

/// A true predicate on a prefix holds of the whole list.
proof fn lemma_any_drop_prefix(s: Seq<TypeModel>, k: int)
    requires
        0 <= k <= s.len(),
        any_requires_drop(s.take(k)),
    ensures
        any_requires_drop(s),
    decreases s.len() - k,
{
    if k < s.len() {
        assert(s.take(k + 1).drop_last() =~= s.take(k));
        lemma_any_drop_prefix(s, k + 1);
    } else {
        assert(s.take(k) =~= s);
    }
}

/// A true predicate on a prefix of parameters holds of the whole list.
proof fn lemma_any_param_drop_prefix(s: Seq<ParamModel>, k: int)
    requires
        0 <= k <= s.len(),
        any_param_requires_drop(s.take(k)),
    ensures
        any_param_requires_drop(s),
    decreases s.len() - k,
{
    if k < s.len() {
        assert(s.take(k + 1).drop_last() =~= s.take(k));
        lemma_any_param_drop_prefix(s, k + 1);
    } else {
        assert(s.take(k) =~= s);
    }
}

/// Return whether a core type owns reference-counted children.
pub fn core_type_requires_drop(core_type: &CoreType) -> (r: bool)
    ensures
        r == requires_drop(model_of(*core_type)),
    decreases core_type,
{
    match core_type {
        CoreType::String | CoreType::Array(_) | CoreType::Generic { .. } => true,
        CoreType::Function { return_types, parameters, error_types, generic_params } => any_type_requires_drop(parameters)
            || any_type_requires_drop(return_types) || any_type_requires_drop(error_types)
            || any_param_type_requires_drop(generic_params),
        _ => false,
    }
}

/// Whether one of `types` requires a drop.
fn any_type_requires_drop(types: &Vec<CoreType>) -> (r: bool)
    ensures
        r == any_requires_drop(models_of(types@)),
    decreases types,
{
    let ghost ms = models_of(types@);
    proof {
        lemma_models_of(types@);
    }
    let mut i: usize = 0;
    while i < types.len()
        invariant
            i <= types@.len(),
            ms == models_of(types@),
            ms.len() == types@.len(),
            forall|j: int| 0 <= j < types@.len() ==> #[trigger] ms[j] == model_of(types@[j]),
            !any_requires_drop(ms.take(i as int)),
        decreases types@.len() - i,
    {
        proof {
            vstd::std_specs::vec::axiom_vec_index_decreases(*types, i as int);
            assert(ms.take(i + 1).drop_last() =~= ms.take(i as int));
            assert(ms.take(i + 1).last() == model_of(types@[i as int]));
        }
        if core_type_requires_drop(&types[i]) {
            proof {
                lemma_any_drop_prefix(ms, i + 1);
            }
            return true;
        }
        i = i + 1;
    }
    proof {
        assert(ms.take(ms.len() as int) =~= ms);
    }
    false
}

/// Whether a constraint of one of `params` requires a drop.
fn any_param_type_requires_drop(params: &Vec<GenericTypeParameter>) -> (r: bool)
    ensures
        r == any_param_requires_drop(params_model(params@)),
    decreases params,
{
    let ghost ps = params_model(params@);
    proof {
        lemma_params_model(params@);
    }
    let mut i: usize = 0;
    while i < params.len()
        invariant
            i <= params@.len(),
            ps == params_model(params@),
            ps.len() == params@.len(),
            forall|j: int| 0 <= j < params@.len() ==> #[trigger] ps[j] == param_model(params@[j]),
            !any_param_requires_drop(ps.take(i as int)),
        decreases params@.len() - i,
    {
        proof {
            vstd::std_specs::vec::axiom_vec_index_decreases(*params, i as int);
            assert(ps.take(i + 1).drop_last() =~= ps.take(i as int));
            assert(ps.take(i + 1).last() == param_model(params@[i as int]));
        }
        if any_type_requires_drop(&params[i].constraints) {
            proof {
                lemma_any_param_drop_prefix(ps, i + 1);
            }
            return true;
        }
        i = i + 1;
    }
    proof {
        assert(ps.take(ps.len() as int) =~= ps);
    }
    false
}

} // verus!
