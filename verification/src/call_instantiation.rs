//! Instantiating the type variables of a called function's type with fresh ones, so that
//! each call site constrains its own copy.

use vstd::prelude::*;
use std::collections::BTreeMap;
use crate::errors::{diagnostic_span_of, TypeError};
use crate::token::Span;
use crate::type_rules::{decimal, TypeVarSupply};
use crate::types::{lemma_models_of, model_of, models_of, CoreType, TypeModel};

verus! {

broadcast use {vstd::std_specs::btree::group_btree_axioms, vstd::laws_cmp::group_laws_cmp};

/// What instantiation has done so far: the fresh type each variable id was given, and
/// the next fresh identifier.
pub ghost struct InstState {
    pub vars: Map<usize, TypeModel>,
    pub next: nat,
}

/// Instantiating one type: its instance and the state after, or the state in which the
/// identifier counter ran out.
pub ghost enum Inst {
    Done(TypeModel, InstState),
    Overflow(InstState),
}

/// Instantiating a list of types, left to right.
pub ghost enum InstList {
    Done(Seq<TypeModel>, InstState),
    Overflow(InstState),
}

/// The fresh variable with identifier `id`, named `t` followed by the identifier.
pub open spec fn fresh_model(id: nat) -> TypeModel {
    TypeModel::Variable { id, name: "t"@ + decimal(id) }
}

/// Instantiate a type: each variable becomes the fresh variable first given to its id,
/// or a new one; arrays, functions and nominal types are instantiated componentwise (a
/// function's generic parameters are dropped); other types stay.
pub open spec fn instantiate(m: TypeModel, st: InstState) -> Inst
    decreases m,
{
    match m {
        TypeModel::Variable { id, .. } => if st.vars.contains_key(id as usize) {
            Inst::Done(st.vars[id as usize], st)
        } else if st.next < usize::MAX {
            let f = fresh_model(st.next);
            Inst::Done(f, InstState { vars: st.vars.insert(id as usize, f), next: st.next + 1 })
        } else {
            Inst::Overflow(st)
        },
        TypeModel::Array(x) => match instantiate(*x, st) {
            Inst::Done(t, s) => Inst::Done(TypeModel::Array(Box::new(t)), s),
            Inst::Overflow(s) => Inst::Overflow(s),
        },
        TypeModel::Function { parameters, return_types, error_types, .. } => match instantiate_list(parameters, st) {
            InstList::Overflow(s) => Inst::Overflow(s),
            InstList::Done(ps, s1) => match instantiate_list(return_types, s1) {
                InstList::Overflow(s) => Inst::Overflow(s),
                InstList::Done(rs, s2) => match instantiate_list(error_types, s2) {
                    InstList::Overflow(s) => Inst::Overflow(s),
                    InstList::Done(es, s3) => Inst::Done(
                        TypeModel::Function {
                            generic_params: Seq::empty(),
                            parameters: ps,
                            return_types: rs,
                            error_types: es,
                        },
                        s3,
                    ),
                },
            },
        },
        TypeModel::Generic { name, type_args } => match instantiate_list(type_args, st) {
            InstList::Done(args, s) => Inst::Done(TypeModel::Generic { name, type_args: args }, s),
            InstList::Overflow(s) => Inst::Overflow(s),
        },
        _ => Inst::Done(m, st),
    }
}

/// Instantiate the types of a list left to right, threading the state.
pub open spec fn instantiate_list(s: Seq<TypeModel>, st: InstState) -> InstList
    decreases s,
{
    if s.len() == 0 {
        InstList::Done(Seq::empty(), st)
    } else {
        match instantiate_list(s.drop_last(), st) {
            InstList::Overflow(x) => InstList::Overflow(x),
            InstList::Done(ms, s1) => match instantiate(s.last(), s1) {
                Inst::Done(t, s2) => InstList::Done(ms.push(t), s2),
                Inst::Overflow(s2) => InstList::Overflow(s2),
            },
        }
    }
}

/// The models of the instantiated types a map holds.
pub open spec fn vars_view(m: Map<usize, CoreType>) -> Map<usize, TypeModel> {
    m.map_values(|c: CoreType| model_of(c))
}

/// The state a supply and an instantiation map stand for.
pub open spec fn state_of(supply: TypeVarSupply, instantiations: Map<usize, CoreType>) -> InstState {
    InstState { vars: vars_view(instantiations), next: supply.next_id() as nat }
}

/// The error reported when the identifier counter runs out.
pub open spec fn is_counter_overflow(e: TypeError, span: Span) -> bool {
    e matches TypeError::ConstraintSolvingFailed { reason, span: s } && reason@ == "type variable counter overflow"@
        && s == diagnostic_span_of(span)
}

/// An overflow of a list prefix is the outcome of the whole list.
proof fn lemma_overflow_persists(s: Seq<TypeModel>, st: InstState, k: int)
    requires
        0 <= k <= s.len(),
        instantiate_list(s.take(k), st) is Overflow,
    ensures
        instantiate_list(s, st) == instantiate_list(s.take(k), st),
    decreases s.len(),
{
    if k < s.len() {
        assert(s.drop_last().take(k) =~= s.take(k));
        lemma_overflow_persists(s.drop_last(), st, k);
    } else {
        assert(s.take(k) =~= s);
    }
}

/// Instantiate the type variables of a called function's type with fresh variables from
/// `supply`, reusing the instance already recorded in `instantiations` for a variable id
/// and recording each new one there.
pub fn instantiate_call_type(
    supply: &mut TypeVarSupply,
    core_type: &CoreType,
    instantiations: &mut BTreeMap<usize, CoreType>,
    span: Span,
) -> (r: Result<CoreType, TypeError>)
    ensures
        match instantiate(model_of(*core_type), state_of(*old(supply), old(instantiations)@)) {
            Inst::Done(t, s) => r matches Ok(c) && model_of(c) == t && state_of(*final(supply), final(instantiations)@)
                == s,
            Inst::Overflow(s) => r matches Err(e) && is_counter_overflow(e, span) && state_of(
                *final(supply),
                final(instantiations)@,
            ) == s,
        },
    decreases core_type,
{
    match core_type {
        CoreType::Variable(type_var) => {
            match instantiations.get(&type_var.id) {
                Some(instantiated) => {
                    return Ok(instantiated.duplicate());
                },
                None => {},
            }
            proof {
                reveal_strlit("t");
            }
            match supply.fresh_type_var_auto(span) {
                Ok(fresh) => {
                    let ghost before = instantiations@;
                    instantiations.insert(type_var.id, fresh.duplicate());
                    proof {
                        assert(vars_view(instantiations@) =~= vars_view(before).insert(type_var.id, model_of(fresh)));
                    }
                    Ok(fresh)
                },
                Err(e) => Err(e),
            }
        },
        CoreType::Array(element_type) => match instantiate_call_type(supply, &**element_type, instantiations, span) {
            Ok(t) => Ok(CoreType::Array(Box::new(t))),
            Err(e) => Err(e),
        },
        CoreType::Function { parameters, return_types, error_types, .. } => {
            let instantiated_parameters = match instantiate_call_types(supply, parameters, instantiations, span) {
                Ok(v) => v,
                Err(e) => {
                    return Err(e);
                },
            };
            let instantiated_returns = match instantiate_call_types(supply, return_types, instantiations, span) {
                Ok(v) => v,
                Err(e) => {
                    return Err(e);
                },
            };
            let instantiated_errors = match instantiate_call_types(supply, error_types, instantiations, span) {
                Ok(v) => v,
                Err(e) => {
                    return Err(e);
                },
            };
            let r = CoreType::Function {
                generic_params: Vec::new(),
                parameters: instantiated_parameters,
                return_types: instantiated_returns,
                error_types: instantiated_errors,
            };
            proof {
                assert(crate::types::params_model(r->generic_params@) =~= Seq::empty());
            }
            Ok(r)
        },
        CoreType::Generic { name, type_args } => match instantiate_call_types(supply, type_args, instantiations, span) {
            Ok(args) => Ok(CoreType::Generic { name: name.clone(), type_args: args }),
            Err(e) => Err(e),
        },
        _ => Ok(core_type.duplicate()),
    }
}

/// Instantiate each type of a list, left to right.
fn instantiate_call_types(
    supply: &mut TypeVarSupply,
    types: &Vec<CoreType>,
    instantiations: &mut BTreeMap<usize, CoreType>,
    span: Span,
) -> (r: Result<Vec<CoreType>, TypeError>)
    ensures
        match instantiate_list(models_of(types@), state_of(*old(supply), old(instantiations)@)) {
            InstList::Done(ts, s) => r matches Ok(v) && models_of(v@) == ts && state_of(
                *final(supply),
                final(instantiations)@,
            ) == s,
            InstList::Overflow(s) => r matches Err(e) && is_counter_overflow(e, span) && state_of(
                *final(supply),
                final(instantiations)@,
            ) == s,
        },
    decreases types,
{
    let ghost ms = models_of(types@);
    let ghost st0 = state_of(*supply, instantiations@);
    proof {
        lemma_models_of(types@);
        assert(ms.take(0) =~= Seq::<TypeModel>::empty());
    }
    let mut out: Vec<CoreType> = Vec::new();
    proof {
        lemma_models_of(out@);
        assert(models_of(out@) =~= Seq::<TypeModel>::empty());
    }
    let mut i: usize = 0;
    while i < types.len()
        invariant
            i <= types@.len(),
            ms == models_of(types@),
            ms.len() == types@.len(),
            forall|j: int| 0 <= j < types@.len() ==> #[trigger] ms[j] == model_of(types@[j]),
            st0 == state_of(*old(supply), old(instantiations)@),
            instantiate_list(ms.take(i as int), st0) == InstList::Done(models_of(out@), state_of(*supply, instantiations@)),
        decreases types@.len() - i,
    {
        proof {
            vstd::std_specs::vec::axiom_vec_index_decreases(*types, i as int);
            assert(ms.take(i + 1).drop_last() =~= ms.take(i as int));
            assert(ms.take(i + 1).last() == model_of(types@[i as int]));
        }
        match instantiate_call_type(supply, &types[i], instantiations, span) {
            Ok(t) => {
                let ghost before = out@;
                out.push(t);
                proof {
                    lemma_models_of(before);
                    lemma_models_of(out@);
                    assert(out@.drop_last() =~= before);
                }
            },
            Err(e) => {
                proof {
                    lemma_overflow_persists(ms, st0, i + 1);
                }
                return Err(e);
            },
        }
        i = i + 1;
    }
    proof {
        assert(ms.take(types@.len() as int) =~= ms);
    }
    Ok(out)
}

/// Recording more is transitive.
proof fn lemma_submap_trans(a: Map<usize, TypeModel>, b: Map<usize, TypeModel>, c: Map<usize, TypeModel>)
    requires
        a.submap_of(b),
        b.submap_of(c),
    ensures
        a.submap_of(c),
{
    vstd::map_lib::lemma_submap_of_trans(a, b, c);
}

/// Instantiation only adds variables and never moves the counter back.
proof fn lemma_instantiate_grows(m: TypeModel, st: InstState)
    ensures
        match instantiate(m, st) {
            Inst::Done(_, s) => st.vars.submap_of(s.vars) && st.next <= s.next,
            Inst::Overflow(s) => st.vars.submap_of(s.vars) && st.next <= s.next,
        },
    decreases m,
{
    match m {
        TypeModel::Variable { id, .. } => {
            if !st.vars.contains_key(id as usize) && st.next < usize::MAX {
                let f = fresh_model(st.next);
                assert(st.vars.submap_of(st.vars.insert(id as usize, f)));
            }
        },
        TypeModel::Array(x) => {
            lemma_instantiate_grows(*x, st);
        },
        TypeModel::Function { parameters, return_types, error_types, .. } => {
            lemma_list_grows(parameters, st);
            match instantiate_list(parameters, st) {
                InstList::Done(_, s1) => {
                    lemma_list_grows(return_types, s1);
                    match instantiate_list(return_types, s1) {
                        InstList::Done(_, s2) => {
                            lemma_submap_trans(st.vars, s1.vars, s2.vars);
                            lemma_list_grows(error_types, s2);
                            match instantiate_list(error_types, s2) {
                                InstList::Done(_, s3) => lemma_submap_trans(st.vars, s2.vars, s3.vars),
                                InstList::Overflow(s3) => lemma_submap_trans(st.vars, s2.vars, s3.vars),
                            }
                        },
                        InstList::Overflow(s2) => lemma_submap_trans(st.vars, s1.vars, s2.vars),
                    }
                },
                _ => {},
            }
        },
        TypeModel::Generic { type_args, .. } => lemma_list_grows(type_args, st),
        _ => {},
    }
}

/// List version of `lemma_instantiate_grows`.
proof fn lemma_list_grows(s: Seq<TypeModel>, st: InstState)
    ensures
        match instantiate_list(s, st) {
            InstList::Done(_, x) => st.vars.submap_of(x.vars) && st.next <= x.next,
            InstList::Overflow(x) => st.vars.submap_of(x.vars) && st.next <= x.next,
        },
    decreases s,
{
    if s.len() > 0 {
        lemma_list_grows(s.drop_last(), st);
        match instantiate_list(s.drop_last(), st) {
            InstList::Done(_, s1) => {
                lemma_instantiate_grows(s.last(), s1);
                match instantiate(s.last(), s1) {
                    Inst::Done(_, s2) => lemma_submap_trans(st.vars, s1.vars, s2.vars),
                    Inst::Overflow(s2) => lemma_submap_trans(st.vars, s1.vars, s2.vars),
                }
            },
            _ => {},
        }
    }
}

/// A type whose instantiation ended in state `s` instantiates the same way, changing
/// nothing, from any state that already records everything `s` does.
proof fn lemma_instantiate_reuses(m: TypeModel, st: InstState, later: InstState)
    requires
        instantiate(m, st) is Done,
        (match instantiate(m, st) {
            Inst::Done(_, s) => s.vars.submap_of(later.vars),
            Inst::Overflow(_) => false,
        }),
    ensures
        instantiate(m, later) == Inst::Done(instantiate(m, st)->Done_0, later),
    decreases m,
{
    match m {
        TypeModel::Variable { id, .. } => {
            let s_after = instantiate(m, st)->Done_1;
            assert(s_after.vars.dom().contains(id as usize));
            assert(later.vars.dom().contains(id as usize));
            assert(later.vars[id as usize] == s_after.vars[id as usize]);
        },
        TypeModel::Array(x) => {
            assert(instantiate(*x, st) is Done);
            lemma_instantiate_reuses(*x, st, later);
            let t = instantiate(*x, st)->Done_0;
            assert(instantiate(*x, later) == Inst::Done(t, later));
            assert(instantiate(m, later) == Inst::Done(TypeModel::Array(Box::new(t)), later));
            assert(instantiate(m, st) == Inst::Done(TypeModel::Array(Box::new(t)), instantiate(*x, st)->Done_1));
            assert(instantiate(m, st)->Done_0 == TypeModel::Array(Box::new(t)));
            assert(instantiate(m, later) == Inst::Done(instantiate(m, st)->Done_0, later));
        },
        TypeModel::Function { parameters, return_types, error_types, .. } => {
            match instantiate_list(parameters, st) {
                InstList::Done(_, s1) => {
                    match instantiate_list(return_types, s1) {
                        InstList::Done(_, s2) => {
                            lemma_list_grows(error_types, s2);
                            lemma_list_grows(return_types, s1);
                            match instantiate_list(error_types, s2) {
                                InstList::Done(_, s3) => {
                                    lemma_submap_trans(s2.vars, s3.vars, later.vars);
                                    lemma_submap_trans(s1.vars, s2.vars, later.vars);
                                },
                                _ => {},
                            }
                            lemma_list_reuses(parameters, st, later);
                            lemma_list_reuses(return_types, s1, later);
                            lemma_list_reuses(error_types, s2, later);
                        },
                        _ => {},
                    }
                },
                _ => {},
            }
        },
        TypeModel::Generic { type_args, .. } => lemma_list_reuses(type_args, st, later),
        _ => {},
    }
}

/// List version of `lemma_instantiate_reuses`: the requirement is on the list's final state.
proof fn lemma_list_reuses(s: Seq<TypeModel>, st: InstState, later: InstState)
    requires
        instantiate_list(s, st) is Done,
        (match instantiate_list(s, st) {
            InstList::Done(_, x) => x.vars.submap_of(later.vars),
            InstList::Overflow(_) => false,
        }),
    ensures
        instantiate_list(s, later) == InstList::Done(instantiate_list(s, st)->Done_0, later),
    decreases s,
{
    if s.len() > 0 {
        match instantiate_list(s.drop_last(), st) {
            InstList::Done(_, s1) => {
                lemma_instantiate_grows(s.last(), s1);
                match instantiate(s.last(), s1) {
                    Inst::Done(_, s2) => lemma_submap_trans(s1.vars, s2.vars, later.vars),
                    _ => {},
                }
                lemma_list_reuses(s.drop_last(), st, later);
                lemma_instantiate_reuses(s.last(), s1, later);
            },
            _ => {},
        }
    }
}

/// Instantiating a called function's type again with the instantiations its first
/// instantiation recorded gives the same instance and draws no fresh variable.
pub proof fn law_instantiation_is_stable(m: TypeModel, st: InstState)
    requires
        instantiate(m, st) is Done,
    ensures
        match instantiate(m, st) {
            Inst::Done(t, s) => instantiate(m, s) == Inst::Done(t, s),
            Inst::Overflow(_) => true,
        },
{
    match instantiate(m, st) {
        Inst::Done(_, s) => lemma_instantiate_reuses(m, st, s),
        _ => {},
    }
}

} // verus!
