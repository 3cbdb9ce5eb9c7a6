//! Type constraints collected for constraint-based inference.

use vstd::prelude::*;
use crate::errors::TypeError;
use crate::substitution::{
    apply, compose, lemma_apply_compose, lemma_apply_keeps_compatible, lemma_compose_assoc, lemma_compose_empty, SubstModel,
    Substitution,
};
use crate::token::Span;
use crate::type_rules::compatible;
use crate::types::{lemma_models_of, model_of, models_of, CoreType, TypeModel};
use crate::unification::{is_unification_error, resolve_span, resolved_span, unify};

verus! {

/// Type constraints used in constraint-based type inference.
#[derive(Debug)]
pub enum TypeConstraint {
    /// Two types must be equal, with optional spans describing each operand.
    Equality {
        left: CoreType,
        right: CoreType,
        left_span: Option<Span>,
        right_span: Option<Span>,
    },
    /// A type must have a specific field with a given type.
    HasField {
        owner: CoreType,
        field_name: String,
        field_type: CoreType,
        owner_span: Option<Span>,
        field_span: Option<Span>,
    },
    /// A type must be callable with specific argument and return types.
    Callable {
        callee: CoreType,
        arguments: Vec<CoreType>,
        return_type: CoreType,
        callee_span: Option<Span>,
        argument_spans: Vec<Option<Span>>,
        return_span: Option<Span>,
    },
}

impl TypeConstraint {
    /// Create an equality constraint that retains optional span metadata for both operands.
    pub fn equality(left: CoreType, right: CoreType, left_span: Option<Span>, right_span: Option<Span>) -> (r: Self)
        ensures
            r == (TypeConstraint::Equality { left, right, left_span, right_span }),
    {
        TypeConstraint::Equality { left, right, left_span, right_span }
    }
}

/// Under `s`, every equality constraint among the first `n` of `cs` relates compatible
/// types.
pub open spec fn equalities_hold(s: SubstModel, cs: Seq<TypeConstraint>, n: int) -> bool {
    forall|j: int|
        0 <= j < n ==> (#[trigger] cs[j] matches TypeConstraint::Equality { left, right, .. } ==> compatible(
            apply(s, model_of(left)),
            apply(s, model_of(right)),
        ))
}

/// `e` is the report for a field constraint, which the solver does not handle: it names
/// the constraint kind and points at the owner, else at the field.
pub open spec fn is_has_field_error(e: TypeError, c: TypeConstraint) -> bool {
    c matches TypeConstraint::HasField { owner_span, field_span, .. } && e matches TypeError::NotImplementedYet {
        feature,
        span,
    } && feature@ == "constraint type HasField"@ && span == resolved_span(owner_span, field_span)
}

/// The errors constraint solving reports.
pub open spec fn is_solving_error(e: TypeError) -> bool {
    is_unification_error(e) || e is NotImplementedYet || e is ArityMismatch || e is NotCallable
}

/// Further bindings keep satisfied equalities satisfied.
proof fn lemma_equalities_hold_compose(s: SubstModel, t: SubstModel, cs: Seq<TypeConstraint>, n: int)
    requires
        equalities_hold(s, cs, n),
    ensures
        equalities_hold(compose(s, t), cs, n),
{
    assert forall|j: int| 0 <= j < n implies (#[trigger] cs[j] matches TypeConstraint::Equality { left, right, .. }
        ==> compatible(apply(compose(s, t), model_of(left)), apply(compose(s, t), model_of(right)))) by {
        if let TypeConstraint::Equality { left, right, .. } = cs[j] {
            lemma_apply_compose(s, t, model_of(left));
            lemma_apply_compose(s, t, model_of(right));
            lemma_apply_keeps_compatible(t, apply(s, model_of(left)), apply(s, model_of(right)));
        }
    }
}

/// Under `s`, the function type `f` can be called with arguments of types `args` and a
/// result expected of type `ret`: it takes as many parameters as there are arguments,
/// each compatible with its argument, and returns one value compatible with `ret`.
pub open spec fn call_satisfied(s: SubstModel, f: TypeModel, args: Seq<TypeModel>, ret: TypeModel) -> bool {
    f matches TypeModel::Function { parameters, return_types, .. } && parameters.len() == args.len() && (forall|i: int|
        0 <= i < args.len() ==> #[trigger] compatible(apply(s, parameters[i]), apply(s, args[i])))
        && return_types.len() == 1 && compatible(apply(s, return_types[0]), apply(s, ret))
}

/// `s` first applies `pre`, then further bindings.
pub open spec fn extends(s: SubstModel, pre: SubstModel) -> bool {
    exists|rest: SubstModel| #[trigger] compose(pre, rest) == s
}

/// Under `s`, every call constraint among the first `n` of `cs` is satisfied by its
/// callee as seen under some substitution that `s` extends.
pub open spec fn calls_hold(s: SubstModel, cs: Seq<TypeConstraint>, n: int) -> bool {
    forall|j: int|
        0 <= j < n ==> (#[trigger] cs[j] matches TypeConstraint::Callable { callee, arguments, return_type, .. }
            ==> exists|pre: SubstModel| extends(s, pre) && #[trigger] call_satisfied(
            s,
            apply(pre, model_of(callee)),
            models_of(arguments@),
            model_of(return_type),
        ))
}

/// Further bindings keep a satisfied call satisfied.
proof fn lemma_call_satisfied_compose(s: SubstModel, t: SubstModel, f: TypeModel, args: Seq<TypeModel>, ret: TypeModel)
    requires
        call_satisfied(s, f, args, ret),
    ensures
        call_satisfied(compose(s, t), f, args, ret),
{
    if let TypeModel::Function { parameters, return_types, .. } = f {
        assert forall|i: int| 0 <= i < args.len() implies #[trigger] compatible(
            apply(compose(s, t), parameters[i]),
            apply(compose(s, t), args[i]),
        ) by {
            assert(compatible(apply(s, parameters[i]), apply(s, args[i])));
            lemma_apply_keeps_compatible(t, apply(s, parameters[i]), apply(s, args[i]));
            lemma_apply_compose(s, t, parameters[i]);
            lemma_apply_compose(s, t, args[i]);
        }
        lemma_apply_keeps_compatible(t, apply(s, return_types[0]), apply(s, ret));
        lemma_apply_compose(s, t, return_types[0]);
        lemma_apply_compose(s, t, ret);
    }
}

/// Further bindings keep an extension an extension.
proof fn lemma_extends_compose(s: SubstModel, pre: SubstModel, t: SubstModel)
    requires
        extends(s, pre),
    ensures
        extends(compose(s, t), pre),
{
    let rest = choose|rest: SubstModel| #[trigger] compose(pre, rest) == s;
    lemma_compose_assoc(pre, rest, t);
    assert(compose(pre, compose(rest, t)) == compose(s, t));
}

/// Further bindings keep satisfied calls satisfied.
proof fn lemma_calls_hold_compose(s: SubstModel, t: SubstModel, cs: Seq<TypeConstraint>, n: int)
    requires
        calls_hold(s, cs, n),
    ensures
        calls_hold(compose(s, t), cs, n),
{
    assert forall|j: int| 0 <= j < n implies (#[trigger] cs[j] matches TypeConstraint::Callable {
        callee,
        arguments,
        return_type,
        ..
    } ==> exists|pre: SubstModel| extends(compose(s, t), pre) && #[trigger] call_satisfied(
        compose(s, t),
        apply(pre, model_of(callee)),
        models_of(arguments@),
        model_of(return_type),
    )) by {
        if let TypeConstraint::Callable { callee, arguments, return_type, .. } = cs[j] {
            let pre = choose|pre: SubstModel| extends(s, pre) && #[trigger] call_satisfied(
                s,
                apply(pre, model_of(callee)),
                models_of(arguments@),
                model_of(return_type),
            );
            lemma_extends_compose(s, pre, t);
            lemma_call_satisfied_compose(s, t, apply(pre, model_of(callee)), models_of(arguments@), model_of(return_type));
        }
    }
}

/// Solve the pending constraints in order, taking them all out of `constraints`.
///
/// Each equality is unified under the bindings found so far, and the result composed
/// in; a call constraint requires a function type of the right arity, whose parameters
/// are unified with the arguments and whose single return type with the expected one;
/// a field constraint is reported as not handled yet.
pub fn solve_constraints(constraints: &mut Vec<TypeConstraint>) -> (r: Result<Substitution, TypeError>)
    ensures
        final(constraints)@.len() == 0,
        r matches Ok(s) ==> equalities_hold(s@, old(constraints)@, old(constraints)@.len() as int),
        r matches Ok(s) ==> calls_hold(s@, old(constraints)@, old(constraints)@.len() as int),
        r is Ok ==> forall|j: int| 0 <= j < old(constraints)@.len() ==> !(#[trigger] old(constraints)@[j] is HasField),
        old(constraints)@.len() == 0 ==> (r matches Ok(s) && s@ == Map::<nat, TypeModel>::empty()),
        old(constraints)@.len() > 0 && old(constraints)@[0] is HasField ==> (r matches Err(e) && is_has_field_error(
            e,
            old(constraints)@[0],
        )),
        r matches Err(e) ==> is_solving_error(e),
{
    let mut pending: Vec<TypeConstraint> = Vec::new();
    std::mem::swap(&mut pending, constraints);
    assert(pending@ == old(constraints)@);
    assert(constraints@.len() == 0);
    let ghost cs = pending@;
    let mut s = Substitution::empty();
    let mut i: usize = 0;
    while i < pending.len()
        invariant
            i <= pending@.len(),
            cs == pending@,
            cs == old(constraints)@,
            constraints@.len() == 0,
            equalities_hold(s@, cs, i as int),
            calls_hold(s@, cs, i as int),
            forall|j: int| 0 <= j < i ==> !(#[trigger] cs[j] is HasField),
            i == 0 ==> s@ == Map::<nat, TypeModel>::empty(),
        decreases pending@.len() - i,
    {
        match &pending[i] {
            TypeConstraint::Equality { left, right, left_span, right_span } => {
                let la = s.apply(left);
                let ra = s.apply(right);
                let t = match unify(&la, &ra, *left_span, *right_span) {
                    Ok(t) => t,
                    Err(e) => return Err(e),
                };
                let next = s.compose(&t);
                proof {
                    lemma_equalities_hold_compose(s@, t@, cs, i as int);
                    lemma_calls_hold_compose(s@, t@, cs, i as int);
                    lemma_apply_compose(s@, t@, model_of(*left));
                    lemma_apply_compose(s@, t@, model_of(*right));
                }
                s = next;
            },
            TypeConstraint::HasField { owner_span, field_span, .. } => {
                return Err(
                    TypeError::NotImplementedYet {
                        feature: String::from_str("constraint type HasField"),
                        span: resolve_span(*owner_span, *field_span),
                    },
                );
            },
            TypeConstraint::Callable { callee, arguments, return_type, callee_span, argument_spans, return_span } => {
                let ghost before = s@;
                s = match solve_callable(s, callee, arguments, return_type, *callee_span, argument_spans, *return_span, Ghost(cs), Ghost(i as int)) {
                    Ok(next) => next,
                    Err(e) => return Err(e),
                };
                proof {
                    assert(extends(s@, before) && call_satisfied(
                        s@,
                        apply(before, model_of(*callee)),
                        models_of(arguments@),
                        model_of(*return_type),
                    ));
                }
            },
        }
        i = i + 1;
    }
    Ok(s)
}

/// Solve one call constraint under `s`, keeping the first `n` constraints of `cs`
/// satisfied.
fn solve_callable(
    s: Substitution,
    callee: &CoreType,
    arguments: &Vec<CoreType>,
    return_type: &CoreType,
    callee_span: Option<Span>,
    argument_spans: &Vec<Option<Span>>,
    return_span: Option<Span>,
    Ghost(cs): Ghost<Seq<TypeConstraint>>,
    Ghost(n): Ghost<int>,
) -> (r: Result<Substitution, TypeError>)
    requires
        equalities_hold(s@, cs, n),
        calls_hold(s@, cs, n),
    ensures
        r matches Ok(next) ==> equalities_hold(next@, cs, n) && calls_hold(next@, cs, n) && extends(next@, s@)
            && call_satisfied(next@, apply(s@, model_of(*callee)), models_of(arguments@), model_of(*return_type)),
        r matches Err(e) ==> is_solving_error(e),
{
    let ghost start = s@;
    let callee_applied = s.apply(callee);
    match &callee_applied {
        CoreType::Function { parameters, return_types, .. } => {
            if parameters.len() != arguments.len() {
                return Err(
                    TypeError::ArityMismatch {
                        expected: parameters.len(),
                        found: arguments.len(),
                        span: resolve_span(callee_span, None),
                    },
                );
            }
            proof {
                lemma_models_of(parameters@);
                lemma_models_of(arguments@);
                lemma_models_of(return_types@);
                lemma_compose_empty(start);
            }
            let ghost (ps, args) = (models_of(parameters@), models_of(arguments@));
            let mut cur = s;
            let mut k: usize = 0;
            while k < parameters.len()
                invariant
                    k <= parameters@.len(),
                    parameters@.len() == arguments@.len(),
                    ps == models_of(parameters@),
                    args == models_of(arguments@),
                    ps.len() == parameters@.len() && args.len() == arguments@.len(),
                    forall|j: int| 0 <= j < parameters@.len() ==> #[trigger] ps[j] == model_of(parameters@[j]),
                    forall|j: int| 0 <= j < arguments@.len() ==> #[trigger] args[j] == model_of(arguments@[j]),
                    equalities_hold(cur@, cs, n),
                    calls_hold(cur@, cs, n),
                    extends(cur@, start),
                    forall|j: int| 0 <= j < k ==> #[trigger] compatible(apply(cur@, ps[j]), apply(cur@, args[j])),
                decreases parameters@.len() - k,
            {
                let pa = cur.apply(&parameters[k]);
                let aa = cur.apply(&arguments[k]);
                let arg_span = if k < argument_spans.len() {
                    match argument_spans[k] {
                        Some(sp) => Some(sp),
                        None => callee_span,
                    }
                } else {
                    callee_span
                };
                let t = match unify(&pa, &aa, None, arg_span) {
                    Ok(t) => t,
                    Err(e) => return Err(e),
                };
                let next = cur.compose(&t);
                proof {
                    lemma_equalities_hold_compose(cur@, t@, cs, n);
                    lemma_calls_hold_compose(cur@, t@, cs, n);
                    lemma_extends_compose(cur@, start, t@);
                    assert forall|j: int| 0 <= j < k + 1 implies #[trigger] compatible(
                        apply(next@, ps[j]),
                        apply(next@, args[j]),
                    ) by {
                        lemma_apply_compose(cur@, t@, ps[j]);
                        lemma_apply_compose(cur@, t@, args[j]);
                        if j < k {
                            assert(compatible(apply(cur@, ps[j]), apply(cur@, args[j])));
                            lemma_apply_keeps_compatible(t@, apply(cur@, ps[j]), apply(cur@, args[j]));
                        }
                    }
                }
                cur = next;
                k = k + 1;
            }
            if return_types.len() != 1 {
                return Err(
                    TypeError::ArityMismatch {
                        expected: 1,
                        found: return_types.len(),
                        span: resolve_span(callee_span, None),
                    },
                );
            }
            let fr = cur.apply(&return_types[0]);
            let rt = cur.apply(return_type);
            let t = match unify(&fr, &rt, callee_span, return_span) {
                Ok(t) => t,
                Err(e) => return Err(e),
            };
            let next = cur.compose(&t);
            proof {
                lemma_equalities_hold_compose(cur@, t@, cs, n);
                lemma_calls_hold_compose(cur@, t@, cs, n);
                lemma_extends_compose(cur@, start, t@);
                let rs = models_of(return_types@);
                lemma_apply_compose(cur@, t@, rs[0]);
                lemma_apply_compose(cur@, t@, model_of(*return_type));
                assert forall|j: int| 0 <= j < args.len() implies #[trigger] compatible(
                    apply(next@, ps[j]),
                    apply(next@, args[j]),
                ) by {
                    assert(compatible(apply(cur@, ps[j]), apply(cur@, args[j])));
                    lemma_apply_keeps_compatible(t@, apply(cur@, ps[j]), apply(cur@, args[j]));
                    lemma_apply_compose(cur@, t@, ps[j]);
                    lemma_apply_compose(cur@, t@, args[j]);
                }
                assert(call_satisfied(next@, model_of(callee_applied), args, model_of(*return_type)));
            }
            Ok(next)
        },
        _ => Err(
            TypeError::NotCallable { type_label: callee_applied.display_name(), span: resolve_span(callee_span, None) },
        ),
    }
}

} // verus!
