//! Checks used by type unification: whether a type variable occurs in a type, and
//! whether a type name may be (re)bound to a type.

use vstd::prelude::*;
use crate::checker_helpers::{is_type_mismatch, type_mismatch_error};
use crate::environment::TypeEnvironment;
use crate::errors::{diagnostic_span_of, DiagnosticSpan, TypeError};
use crate::substitution::{
    SubstModel, apply, apply_list, lemma_apply_compose, lemma_apply_keeps_compatible, lemma_apply_list, lemma_apply_unbound,
    Substitution,
};
use crate::token::Span;
use crate::type_rules::{compatible, law_compatible_reflexive, list_compatible, types_compatible};
use crate::types::{display, lemma_models_of, model_of, models_of, CoreType, TypeModel};
use crate::unifiers::{
    absorbs, depth, lemma_absorbs_apply, lemma_absorbs_compose, lemma_compatible_depth, lemma_lengths_differ,
    lemma_unifies_lists, lemma_variable_unifier, law_compatible_transitive, unifies, unifies_all,
};
use crate::type_rules::law_compatible_symmetric;

verus! {

/// The type variable `var_id` occurs in `m`: in an array's element type, a function's
/// parameter, return or error types, or a nominal type's arguments.
pub open spec fn occurs(var_id: nat, m: TypeModel) -> bool
    decreases m,
{
    match m {
        TypeModel::Variable { id, .. } => id == var_id,
        TypeModel::Array(e) => occurs(var_id, *e),
        TypeModel::Function { parameters, return_types, error_types, .. } => occurs_in_any(var_id, return_types)
            || occurs_in_any(var_id, parameters) || occurs_in_any(var_id, error_types),
        TypeModel::Generic { type_args, .. } => occurs_in_any(var_id, type_args),
        _ => false,
    }
}

/// The type variable `var_id` occurs in one of `s`.
pub open spec fn occurs_in_any(var_id: nat, s: Seq<TypeModel>) -> bool
    decreases s,
{
    if s.len() == 0 {
        false
    } else {
        occurs_in_any(var_id, s.drop_last()) || occurs(var_id, s.last())
    }
}

/// Check if a type variable occurs in a type (prevents infinite types).
pub fn occurs_check(var_id: usize, initial_type: &CoreType) -> (r: bool)
    ensures
        r == occurs(var_id as nat, model_of(*initial_type)),
    decreases initial_type,
{
    match initial_type {
        CoreType::Variable(var) => var.id == var_id,
        CoreType::Array(element_type) => occurs_check(var_id, &**element_type),
        CoreType::Function { parameters, return_types, error_types, .. } => occurs_in_list(var_id, return_types)
            || occurs_in_list(var_id, parameters) || occurs_in_list(var_id, error_types),
        CoreType::Generic { type_args, .. } => occurs_in_list(var_id, type_args),
        _ => false,
    }
}

/// Whether the type variable occurs in one of `types`.
fn occurs_in_list(var_id: usize, types: &Vec<CoreType>) -> (r: bool)
    ensures
        r == occurs_in_any(var_id as nat, crate::types::models_of(types@)),
    decreases types,
{
    let ghost ms = crate::types::models_of(types@);
    proof {
        crate::types::lemma_models_of(types@);
    }
    let mut i: usize = 0;
    while i < types.len()
        invariant
            i <= types@.len(),
            ms == crate::types::models_of(types@),
            ms.len() == types@.len(),
            forall|j: int| 0 <= j < types@.len() ==> #[trigger] ms[j] == model_of(types@[j]),
            !occurs_in_any(var_id as nat, ms.take(i as int)),
        decreases types@.len() - i,
    {
        proof {
            vstd::std_specs::vec::axiom_vec_index_decreases(*types, i as int);
            assert(ms.take(i + 1).drop_last() =~= ms.take(i as int));
            assert(ms.take(i + 1).last() == model_of(types@[i as int]));
        }
        if occurs_check(var_id, &types[i]) {
            proof {
                lemma_occurs_in_prefix(var_id as nat, ms, i + 1);
            }
            return true;
        }
        i = i + 1;
    }
    proof {
        assert(ms.take(ms.len() as int) =~= ms);
    }
    false
}

/// An occurrence in a prefix is an occurrence in the whole list.
proof fn lemma_occurs_in_prefix(var_id: nat, s: Seq<TypeModel>, k: int)
    requires
        0 <= k <= s.len(),
        occurs_in_any(var_id, s.take(k)),
    ensures
        occurs_in_any(var_id, s),
    decreases s.len() - k,
{
    if k < s.len() {
        assert(s.take(k + 1).drop_last() =~= s.take(k));
        lemma_occurs_in_prefix(var_id, s, k + 1);
    } else {
        assert(s.take(k) =~= s);
    }
}

/// Validate that `name` may denote `core_type`: a name already registered for a
/// different type is a mismatch reported at `span`.
pub fn validate_type_name(environment: &TypeEnvironment, name: &str, core_type: &CoreType, span: Span) -> (r: Result<
    (),
    TypeError,
>)
    requires
        environment.wf(),
    ensures
        environment.types().contains_key(name@) && environment.types()[name@] != model_of(*core_type) ==> (r matches Err(e)
            && is_type_mismatch(e, environment.types()[name@], None, model_of(*core_type), span)),
        !(environment.types().contains_key(name@) && environment.types()[name@] != model_of(*core_type)) ==> r is Ok,
{
    match environment.lookup_type(name, span) {
        Ok(existing_type) => {
            if !existing_type.equals(core_type) {
                return Err(type_mismatch_error(existing_type, None, core_type, span));
            }
            Ok(())
        },
        Err(_) => Ok(()),
    }
}

/// The diagnostic region of `primary`, else of `fallback`, else the unknown region.
pub open spec fn resolved_span(primary: Option<Span>, fallback: Option<Span>) -> DiagnosticSpan {
    match primary {
        Some(s) => diagnostic_span_of(s),
        None => match fallback {
            Some(s) => diagnostic_span_of(s),
            None => DiagnosticSpan { offset: 0, length: 0 },
        },
    }
}

/// `e` reports that `left` and `right` cannot be unified, at the given sides.
pub open spec fn is_unification_failure(
    e: TypeError,
    left: TypeModel,
    right: TypeModel,
    left_span: Option<Span>,
    right_span: Option<Span>,
) -> bool {
    e matches TypeError::UnificationFailed { left: l, right: r, left_span: ls, right_span: rs } && l@ == display(left)
        && r@ == display(right) && ls == resolved_span(left_span, right_span) && rs == resolved_span(right_span, left_span)
}

/// The errors unification reports.
pub open spec fn is_unification_error(e: TypeError) -> bool {
    e is UnificationFailed || e is OccursCheckFailed
}

/// Under `s`, the types of `xs` and `ys` are compatible position by position.
pub open spec fn pairwise_compatible(s: crate::substitution::SubstModel, xs: Seq<TypeModel>, ys: Seq<TypeModel>) -> bool {
    xs.len() == ys.len() && forall|i: int| 0 <= i < xs.len() ==> #[trigger] compatible(apply(s, xs[i]), apply(s, ys[i]))
}

/// What binding the variable `var_id` (shown as `var_name`) to `other` gives: an
/// occurs-check failure when the variable occurs in `other`, else that one binding.
pub open spec fn binds_variable(
    r: Result<Substitution, TypeError>,
    var_id: nat,
    var_name: Seq<char>,
    other: TypeModel,
    var_span: Option<Span>,
    other_span: Option<Span>,
) -> bool {
    if occurs(var_id, other) {
        r matches Err(TypeError::OccursCheckFailed { var_name: n, type_label: t, span: sp }) && n@ == var_name && t@
            == display(other) && sp == resolved_span(var_span, other_span)
    } else {
        r matches Ok(s) && s@ == Map::<nat, TypeModel>::empty().insert(var_id, other)
    }
}

/// Pairwise compatibility under `s` gives list compatibility of the substituted lists.
proof fn lemma_pairwise_list_compatible(s: crate::substitution::SubstModel, xs: Seq<TypeModel>, ys: Seq<TypeModel>)
    requires
        pairwise_compatible(s, xs, ys),
    ensures
        list_compatible(apply_list(s, xs), apply_list(s, ys)),
    decreases xs.len(),
{
    lemma_apply_list(s, xs);
    lemma_apply_list(s, ys);
    if xs.len() > 0 {
        let (xp, yp) = (xs.drop_last(), ys.drop_last());
        assert forall|i: int| 0 <= i < xp.len() implies #[trigger] compatible(apply(s, xp[i]), apply(s, yp[i])) by {
            assert(xp[i] == xs[i] && yp[i] == ys[i]);
        }
        lemma_pairwise_list_compatible(s, xp, yp);
        lemma_apply_list(s, xp);
        lemma_apply_list(s, yp);
        assert(apply_list(s, xs).drop_last() =~= apply_list(s, xp));
        assert(apply_list(s, ys).drop_last() =~= apply_list(s, yp));
        assert(compatible(apply(s, xs[xs.len() - 1]), apply(s, ys[ys.len() - 1])));
    }
}

/// The empty substitution changes no type.
proof fn lemma_apply_empty(m: TypeModel)
    ensures
        apply(Map::<nat, TypeModel>::empty(), m) == m,
{
    lemma_apply_unbound(Map::<nat, TypeModel>::empty(), m);
}

/// Diagnostic region chosen for a unification failure.
pub(crate) fn resolve_span(primary: Option<Span>, fallback: Option<Span>) -> (r: DiagnosticSpan)
    ensures
        r == resolved_span(primary, fallback),
{
    match primary {
        Some(s) => TypeError::span_from_span(s),
        None => match fallback {
            Some(s) => TypeError::span_from_span(s),
            None => TypeError::unknown_span(),
        },
    }
}

/// The failure reported for `left` and `right`.
fn unification_failure(left: &CoreType, right: &CoreType, left_span: Option<Span>, right_span: Option<Span>) -> (e:
    TypeError)
    ensures
        is_unification_failure(e, model_of(*left), model_of(*right), left_span, right_span),
{
    TypeError::UnificationFailed {
        left: left.display_name(),
        right: right.display_name(),
        left_span: resolve_span(left_span, right_span),
        right_span: resolve_span(right_span, left_span),
    }
}

/// Bind the variable to `other`, unless it occurs there.
fn unify_type_variable(var_id: usize, var_name: &String, other: &CoreType, var_span: Option<Span>, other_span: Option<
    Span,
>) -> (r: Result<Substitution, TypeError>)
    ensures
        binds_variable(r, var_id as nat, var_name@, model_of(*other), var_span, other_span),
{
    if occurs_check(var_id, other) {
        Err(
            TypeError::OccursCheckFailed {
                var_name: var_name.clone(),
                type_label: other.display_name(),
                span: resolve_span(var_span, other_span),
            },
        )
    } else {
        Ok(Substitution::single(var_id, other.duplicate()))
    }
}

/// Unify two types, returning a substitution under which they are compatible.
///
/// Compatible types need no binding; a type variable is bound to the other side unless
/// it occurs there; arrays unify their elements; function types of the same shape
/// unify parameters, returns and errors in turn, and nominal types of the same name and
/// arity their arguments, each under the bindings found so far; anything else fails.
pub fn unify(left: &CoreType, right: &CoreType, left_span: Option<Span>, right_span: Option<Span>) -> (r: Result<
    Substitution,
    TypeError,
>)
    ensures
        r matches Ok(s) ==> compatible(apply(s@, model_of(*left)), apply(s@, model_of(*right))),
        r matches Err(e) ==> is_unification_error(e),
        compatible(model_of(*left), model_of(*right)) ==> (r matches Ok(s) && s@ == Map::<nat, TypeModel>::empty()),
        !compatible(model_of(*left), model_of(*right)) ==> unify_step(
            r,
            model_of(*left),
            model_of(*right),
            left_span,
            right_span,
        ),
        forall|sigma: SubstModel|
            #[trigger] unifies(sigma, model_of(*left), model_of(*right)) && depth(apply(sigma, model_of(*left))) < u64::MAX
                ==> (r is Ok && absorbs(sigma, r->Ok_0@)),
{
    unify_impl(left, right, left_span, right_span, u64::MAX)
}

/// What unification of two incompatible types gives at the outermost level: a variable
/// on the left (else on the right) is bound to the other side; two types of different
/// kinds, function types whose parameter or return counts differ, and nominal types
/// whose names or argument counts differ fail.
pub open spec fn unify_step(
    r: Result<Substitution, TypeError>,
    left: TypeModel,
    right: TypeModel,
    left_span: Option<Span>,
    right_span: Option<Span>,
) -> bool {
    match (left, right) {
        (TypeModel::Variable { id, name }, _) => binds_variable(r, id, name, right, left_span, right_span),
        (_, TypeModel::Variable { id, name }) => binds_variable(r, id, name, left, right_span, left_span),
        (TypeModel::Array(_), TypeModel::Array(_)) => true,
        (
            TypeModel::Function { parameters: p1, return_types: r1, .. },
            TypeModel::Function { parameters: p2, return_types: r2, .. },
        ) => (p1.len() != p2.len() || r1.len() != r2.len()) ==> (r matches Err(e) && is_unification_failure(
            e,
            left,
            right,
            left_span,
            right_span,
        )),
        (TypeModel::Generic { name: n1, type_args: a1 }, TypeModel::Generic { name: n2, type_args: a2 }) => (n1 != n2
            || a1.len() != a2.len()) ==> (r matches Err(e) && is_unification_failure(e, left, right, left_span, right_span)),
        _ => r matches Err(e) && is_unification_failure(e, left, right, left_span, right_span),
    }
}

/// Unification with a bound on the nesting of the search; the bound is never reached
/// from `unify`, whose callers would exhaust the stack long before.
fn unify_impl(left: &CoreType, right: &CoreType, left_span: Option<Span>, right_span: Option<Span>, budget: u64) -> (r:
    Result<Substitution, TypeError>)
    ensures
        r matches Ok(s) ==> compatible(apply(s@, model_of(*left)), apply(s@, model_of(*right))),
        r matches Err(e) ==> is_unification_error(e),
        budget > 0 && compatible(model_of(*left), model_of(*right)) ==> (r matches Ok(s) && s@ == Map::<nat, TypeModel>::empty()),
        budget > 0 && !compatible(model_of(*left), model_of(*right)) ==> unify_step(
            r,
            model_of(*left),
            model_of(*right),
            left_span,
            right_span,
        ),
        forall|sigma: SubstModel|
            #[trigger] unifies(sigma, model_of(*left), model_of(*right)) && depth(apply(sigma, model_of(*left))) < budget
                ==> (r is Ok && absorbs(sigma, r->Ok_0@)),
    decreases budget, 0nat,
{
    if budget == 0 {
        return Err(unification_failure(left, right, left_span, right_span));
    }
    if types_compatible(left, right) {
        let s = Substitution::empty();
        proof {
            lemma_apply_empty(model_of(*left));
            lemma_apply_empty(model_of(*right));
        }
        return Ok(s);
    }
    if let CoreType::Variable(v) = left {
        let r = unify_type_variable(v.id, &v.name, right, left_span, right_span);
        proof {
            if r is Ok {
                lemma_apply_unbound(r->Ok_0@, model_of(*right));
                law_compatible_reflexive(model_of(*right));
            }
            assert forall|sigma: SubstModel|
                #[trigger] unifies(sigma, model_of(*left), model_of(*right)) && depth(apply(sigma, model_of(*left))) < budget
                    implies (r is Ok && absorbs(sigma, r->Ok_0@)) by {
                lemma_variable_unifier(sigma, v.id as nat, v.name@, model_of(*right));
            }
        }
        return r;
    }
    if let CoreType::Variable(v) = right {
        let r = unify_type_variable(v.id, &v.name, left, right_span, left_span);
        proof {
            if r is Ok {
                lemma_apply_unbound(r->Ok_0@, model_of(*left));
                law_compatible_reflexive(model_of(*left));
            }
            assert forall|sigma: SubstModel|
                #[trigger] unifies(sigma, model_of(*left), model_of(*right)) && depth(apply(sigma, model_of(*left))) < budget
                    implies (r is Ok && absorbs(sigma, r->Ok_0@)) by {
                law_compatible_symmetric(apply(sigma, model_of(*left)), apply(sigma, model_of(*right)));
                lemma_variable_unifier(sigma, v.id as nat, v.name@, model_of(*left));
            }
        }
        return r;
    }
    match (left, right) {
        (CoreType::Array(le), CoreType::Array(re)) => {
            let r = unify_impl(&**le, &**re, left_span, right_span, budget - 1);
            proof {
                assert forall|sigma: SubstModel|
                    #[trigger] unifies(sigma, model_of(*left), model_of(*right)) && depth(apply(sigma, model_of(*left))) < budget
                        implies (r is Ok && absorbs(sigma, r->Ok_0@)) by {
                    assert(unifies(sigma, model_of(**le), model_of(**re)));
                }
            }
            r
        },
        (
            CoreType::Function { parameters: lp, return_types: lr, error_types: le, .. },
            CoreType::Function { parameters: rp, return_types: rr, error_types: re, .. },
        ) => {
            if lp.len() != rp.len() || lr.len() != rr.len() {
                proof {
                    lemma_models_of(lp@);
                    lemma_models_of(rp@);
                    lemma_models_of(lr@);
                    lemma_models_of(rr@);
                    assert forall|sigma: SubstModel| !#[trigger] unifies(sigma, model_of(*left), model_of(*right)) by {
                        if lp.len() != rp.len() {
                            lemma_lengths_differ(sigma, models_of(lp@), models_of(rp@));
                        } else {
                            lemma_lengths_differ(sigma, models_of(lr@), models_of(rr@));
                        }
                    }
                }
                return Err(unification_failure(left, right, left_span, right_span));
            }
            let ghost (mlp, mrp, mlr, mrr, mle, mre) = (
                models_of(lp@),
                models_of(rp@),
                models_of(lr@),
                models_of(rr@),
                models_of(le@),
                models_of(re@),
            );
            proof {
                lemma_models_of(lp@);
                lemma_models_of(rp@);
                lemma_models_of(lr@);
                lemma_models_of(rr@);
                lemma_models_of(le@);
                lemma_models_of(re@);
                assert forall|sigma: SubstModel|
                    #[trigger] unifies(sigma, model_of(*left), model_of(*right)) && depth(apply(sigma, model_of(*left))) < budget
                        implies unifies_all(sigma, mlp, mrp, budget - 1) && unifies_all(sigma, mlr, mrr, budget - 1) && (mle.len()
                        == mre.len() ==> unifies_all(sigma, mle, mre, budget - 1)) by {
                    lemma_unifies_lists(sigma, mlp, mrp, budget - 1);
                    lemma_unifies_lists(sigma, mlr, mrr, budget - 1);
                    if mle.len() == mre.len() {
                        lemma_unifies_lists(sigma, mle, mre, budget - 1);
                    } else {
                        lemma_lengths_differ(sigma, mle, mre);
                    }
                }
            }
            let c0 = Substitution::empty();
            let c1 = match unify_pairwise(lp, rp, c0, left_span, right_span, budget - 1, Ghost(Seq::empty()), Ghost(Seq::empty())) {
                Ok(c) => c,
                Err(e) => return Err(e),
            };
            proof {
                assert(Seq::<TypeModel>::empty() + mlp =~= mlp);
                assert(Seq::<TypeModel>::empty() + mrp =~= mrp);
            }
            let c2 = match unify_pairwise(lr, rr, c1, left_span, right_span, budget - 1, Ghost(mlp), Ghost(mrp)) {
                Ok(c) => c,
                Err(e) => return Err(e),
            };
            if le.len() != re.len() {
                proof {
                    assert(!compatible(model_of(*left), model_of(*right)));
                    assert forall|sigma: SubstModel| !#[trigger] unifies(sigma, model_of(*left), model_of(*right)) by {
                        lemma_lengths_differ(sigma, mle, mre);
                    }
                }
                return Err(unification_failure(left, right, left_span, right_span));
            }
            let c3 = match unify_pairwise(le, re, c2, left_span, right_span, budget - 1, Ghost(mlp + mlr), Ghost(mrp + mrr)) {
                Ok(c) => c,
                Err(e) => return Err(e),
            };
            proof {
                let (xs, ys) = (mlp + mlr + mle, mrp + mrr + mre);
                assert forall|i: int| 0 <= i < mlp.len() implies #[trigger] compatible(apply(c3@, mlp[i]), apply(c3@, mrp[i])) by {
                    assert(xs[i] == mlp[i] && ys[i] == mrp[i]);
                }
                assert forall|i: int| 0 <= i < mlr.len() implies #[trigger] compatible(apply(c3@, mlr[i]), apply(c3@, mrr[i])) by {
                    assert(xs[mlp.len() + i] == mlr[i] && ys[mlp.len() + i] == mrr[i]);
                }
                assert forall|i: int| 0 <= i < mle.len() implies #[trigger] compatible(apply(c3@, mle[i]), apply(c3@, mre[i])) by {
                    assert(xs[mlp.len() + mlr.len() + i] == mle[i] && ys[mlp.len() + mlr.len() + i] == mre[i]);
                }
                lemma_pairwise_list_compatible(c3@, mlp, mrp);
                lemma_pairwise_list_compatible(c3@, mlr, mrr);
                lemma_pairwise_list_compatible(c3@, mle, mre);
            }
            Ok(c3)
        },
        (CoreType::Generic { name: ln, type_args: la }, CoreType::Generic { name: rn, type_args: ra }) => {
            proof {
                lemma_models_of(la@);
                lemma_models_of(ra@);
            }
            if !crate::text::str_eq(ln.as_str(), rn.as_str()) || la.len() != ra.len() {
                proof {
                    assert forall|sigma: SubstModel| !#[trigger] unifies(sigma, model_of(*left), model_of(*right)) by {
                        if la.len() != ra.len() {
                            lemma_lengths_differ(sigma, models_of(la@), models_of(ra@));
                        }
                    }
                }
                return Err(unification_failure(left, right, left_span, right_span));
            }
            proof {
                assert forall|sigma: SubstModel|
                    #[trigger] unifies(sigma, model_of(*left), model_of(*right)) && depth(apply(sigma, model_of(*left))) < budget
                        implies unifies_all(sigma, models_of(la@), models_of(ra@), budget - 1) by {
                    lemma_unifies_lists(sigma, models_of(la@), models_of(ra@), budget - 1);
                }
            }
            let c0 = Substitution::empty();
            let c = match unify_pairwise(la, ra, c0, left_span, right_span, budget - 1, Ghost(Seq::empty()), Ghost(Seq::empty())) {
                Ok(c) => c,
                Err(e) => return Err(e),
            };
            proof {
                assert(Seq::<TypeModel>::empty() + models_of(la@) =~= models_of(la@));
                assert(Seq::<TypeModel>::empty() + models_of(ra@) =~= models_of(ra@));
                lemma_pairwise_list_compatible(c@, models_of(la@), models_of(ra@));
            }
            Ok(c)
        },
        _ => {
            proof {
                assert forall|sigma: SubstModel| !#[trigger] unifies(sigma, model_of(*left), model_of(*right)) by {
                    lemma_shapes_differ(sigma, model_of(*left), model_of(*right));
                }
            }
            Err(unification_failure(left, right, left_span, right_span))
        },
    }
}

/// Two incompatible types that are not variables, and not both arrays, both functions or
/// both nominal types, have no unifier.
proof fn lemma_shapes_differ(sigma: SubstModel, l: TypeModel, r: TypeModel)
    requires
        !compatible(l, r),
        !(l is Variable),
        !(r is Variable),
        !(l is Array && r is Array),
        !(l is Function && r is Function),
        !(l is Generic && r is Generic),
    ensures
        !unifies(sigma, l, r),
{
}

/// Unify `left[i]` with `right[i]` in turn, each under the bindings found so far,
/// starting from `start`, under which the earlier pairs `done_left`, `done_right` are
/// already compatible.
fn unify_pairwise(
    left: &Vec<CoreType>,
    right: &Vec<CoreType>,
    start: Substitution,
    left_span: Option<Span>,
    right_span: Option<Span>,
    budget: u64,
    Ghost(done_left): Ghost<Seq<TypeModel>>,
    Ghost(done_right): Ghost<Seq<TypeModel>>,
) -> (r: Result<Substitution, TypeError>)
    requires
        left@.len() == right@.len(),
        pairwise_compatible(start@, done_left, done_right),
    ensures
        r matches Ok(c) ==> pairwise_compatible(c@, done_left + models_of(left@), done_right + models_of(right@)),
        r matches Err(e) ==> is_unification_error(e),
        forall|sigma: SubstModel|
            absorbs(sigma, start@) && #[trigger] unifies_all(sigma, models_of(left@), models_of(right@), budget as int) ==> (r is Ok
                && absorbs(sigma, r->Ok_0@)),
    decreases budget, 1nat,
{
    proof {
        lemma_models_of(left@);
        lemma_models_of(right@);
    }
    let ghost (ml, mr) = (models_of(left@), models_of(right@));
    let mut c = start;
    let mut i: usize = 0;
    proof {
        assert(done_left + ml.take(0) =~= done_left);
        assert(done_right + mr.take(0) =~= done_right);
    }
    while i < left.len()
        invariant
            i <= left@.len(),
            left@.len() == right@.len(),
            ml == models_of(left@),
            mr == models_of(right@),
            ml.len() == left@.len() && mr.len() == right@.len(),
            forall|j: int| 0 <= j < left@.len() ==> #[trigger] ml[j] == model_of(left@[j]),
            forall|j: int| 0 <= j < right@.len() ==> #[trigger] mr[j] == model_of(right@[j]),
            pairwise_compatible(c@, done_left + ml.take(i as int), done_right + mr.take(i as int)),
            forall|sigma: SubstModel|
                absorbs(sigma, start@) && #[trigger] unifies_all(sigma, ml, mr, budget as int) ==> absorbs(sigma, c@),
        decreases left@.len() - i,
    {
        let la = c.apply(&left[i]);
        let ra = c.apply(&right[i]);
        let res = unify_impl(&la, &ra, left_span, right_span, budget);
        proof {
            assert forall|sigma: SubstModel|
                absorbs(sigma, start@) && #[trigger] unifies_all(sigma, ml, mr, budget as int) implies res is Ok && absorbs(
                sigma,
                res->Ok_0@,
            ) by {
                assert(0 <= i < ml.len());
                assert(unifies(sigma, ml[i as int], mr[i as int]));
                assert(depth(apply(sigma, ml[i as int])) < budget);
                crate::unifiers::lemma_unifier_after(sigma, c@, ml[i as int], mr[i as int], budget as int);
                assert(unifies(sigma, model_of(la), model_of(ra)));
            }
        }
        let t = match res {
            Ok(t) => t,
            Err(e) => return Err(e),
        };
        let next = c.compose(&t);
        proof {
            assert forall|sigma: SubstModel|
                absorbs(sigma, start@) && #[trigger] unifies_all(sigma, ml, mr, budget as int) implies absorbs(sigma, next@) by {
                lemma_absorbs_compose(sigma, c@, t@);
            }
            let (xs, ys) = (done_left + ml.take(i as int), done_right + mr.take(i as int));
            let (xs2, ys2) = (done_left + ml.take(i + 1), done_right + mr.take(i + 1));
            assert(xs2 =~= xs.push(ml[i as int]));
            assert(ys2 =~= ys.push(mr[i as int]));
            assert forall|j: int| 0 <= j < xs2.len() implies #[trigger] compatible(apply(next@, xs2[j]), apply(next@, ys2[j])) by {
                lemma_apply_compose(c@, t@, xs2[j]);
                lemma_apply_compose(c@, t@, ys2[j]);
                if j < xs.len() {
                    assert(xs2[j] == xs[j] && ys2[j] == ys[j]);
                    assert(compatible(apply(c@, xs[j]), apply(c@, ys[j])));
                    lemma_apply_keeps_compatible(t@, apply(c@, xs[j]), apply(c@, ys[j]));
                }
            }
        }
        c = next;
        i = i + 1;
    }
    proof {
        assert(ml.take(i as int) =~= ml);
        assert(mr.take(i as int) =~= mr);
    }
    Ok(c)
}

} // verus!
