//! Typing of `if` used as a value, over already-typed condition and branches.

use vstd::prelude::*;
use crate::ast::Expr;
use crate::checker_helpers::{ensure_boolean_type, is_invalid_operation, is_type_mismatch, type_mismatch_error};
use crate::constraints::TypeConstraint;
use crate::errors::{diagnostic_span_of, TypeError};
use crate::token::Span;
use crate::type_rules::{compatible, types_compatible};
use crate::types::{display, model_of, CoreType, TypeModel};

verus! {

/// The constraint equates types `a` and `b` located at `sa` and `sb`.
pub open spec fn equates(c: TypeConstraint, a: TypeModel, b: TypeModel, sa: Span, sb: Span) -> bool {
    c matches TypeConstraint::Equality { left, right, left_span, right_span } && model_of(left) == a
        && model_of(right) == b && left_span == Some(sa) && right_span == Some(sb)
}

/// Type an `if` used as a value. The condition, of type `condition_type`, must be boolean.
/// With an `else` branch (its value type and span), both branch types are equated in a
/// recorded constraint and must be compatible; the `if` has the then branch's type
/// `then_type`. Without one the then branch is checked as a statement by the caller, a
/// required non-unit, non-variable `expected_type` is refused, and the `if` is unit.
pub fn type_check_if_expr(
    constraints: &mut Vec<TypeConstraint>,
    condition: &Expr,
    condition_type: &CoreType,
    then_span: Span,
    then_type: &CoreType,
    else_branch: Option<(&CoreType, Span)>,
    expected_type: Option<&CoreType>,
    span: Span,
) -> (r: Result<CoreType, TypeError>)
    ensures
        model_of(*condition_type) != TypeModel::Boolean ==> (r matches Err(e) && is_invalid_operation(
            e,
            "if condition"@,
            model_of(*condition_type),
            condition.span_of(),
        ) && final(constraints)@ == old(constraints)@),
        model_of(*condition_type) == TypeModel::Boolean ==> match else_branch {
            Some((else_type, else_span)) => {
                &&& final(constraints)@.len() == old(constraints)@.len() + 1
                &&& final(constraints)@.drop_last() == old(constraints)@
                &&& equates(final(constraints)@.last(), model_of(*then_type), model_of(*else_type), then_span, else_span)
                &&& compatible(model_of(*then_type), model_of(*else_type)) ==> (r matches Ok(t) && model_of(t)
                    == model_of(*then_type))
                &&& !compatible(model_of(*then_type), model_of(*else_type)) ==> (r matches Err(e) && is_type_mismatch(
                    e,
                    model_of(*then_type),
                    Some(then_span),
                    model_of(*else_type),
                    else_span,
                ))
            },
            None => match expected_type {
                Some(t) if model_of(*t) != TypeModel::Unit && !(model_of(*t) is Variable) => (r matches Err(
                    TypeError::MissingElseBranch { expected_type: x, span: s },
                ) && x@ == display(model_of(*t)) && s == diagnostic_span_of(span) && final(constraints)@
                    == old(constraints)@),
                _ => r matches Ok(t) && model_of(t) == TypeModel::Unit && final(constraints)@ == old(
                    constraints,
                )@.push(TypeConstraint::Equality {
                    left: CoreType::Unit,
                    right: CoreType::Unit,
                    left_span: Some(span),
                    right_span: Some(span),
                }),
            },
        },
{
    proof {
        reveal_strlit("if condition");
    }
    if let Err(e) = ensure_boolean_type(condition_type, condition.span(), "if condition") {
        return Err(e);
    }
    match else_branch {
        Some((else_type, else_span)) => {
            constraints.push(
                TypeConstraint::equality(then_type.duplicate(), else_type.duplicate(), Some(then_span), Some(else_span)),
            );
            proof {
                assert(constraints@.drop_last() =~= old(constraints)@);
            }
            if !types_compatible(then_type, else_type) {
                return Err(type_mismatch_error(then_type, Some(then_span), else_type, else_span));
            }
            Ok(then_type.duplicate())
        },
        None => {
            match expected_type {
                Some(required_type) => {
                    if !matches!(required_type, CoreType::Unit) && !matches!(required_type, CoreType::Variable(_)) {
                        return Err(
                            TypeError::MissingElseBranch {
                                expected_type: required_type.display_name(),
                                span: TypeError::span_from_span(span),
                            },
                        );
                    }
                },
                None => {},
            }
            constraints.push(TypeConstraint::equality(CoreType::Unit, CoreType::Unit, Some(span), Some(span)));
            Ok(CoreType::Unit)
        },
    }
}

} // verus!
