//! Affine-ownership and borrow diagnostics, and the expression shapes the ownership
//! rules look through.

use vstd::prelude::*;
use crate::ast::{BorrowKind, Expr};
use crate::errors::{is_constraint_error, TypeError};
use crate::ownership::{borrow_kind_label, OwnerBinding, OwnershipState};
use crate::text::{join3, join5, join7};
use crate::token::Span;
use crate::type_rules::{decimal, decimal_string};
use crate::types::{display, model_of, CoreType};

verus! {

/// How a borrow kind is named in diagnostics.
pub open spec fn borrow_label(kind: BorrowKind) -> Seq<char> {
    match kind {
        BorrowKind::Owned => "owned"@,
        BorrowKind::Ref => "ref"@,
        BorrowKind::MutableRef => "mutable ref"@,
    }
}

/// Where an owner was moved, or where it was introduced when no move is recorded.
pub open spec fn moved_at_or_source(owner: OwnerBinding) -> Span {
    match owner.moved_at {
        Some(s) => s,
        None => owner.source_location,
    }
}

/// The reason of a use-after-move diagnostic.
pub open spec fn use_after_move_reason(name: Seq<char>, owner: OwnerBinding) -> Seq<char> {
    "affine resource '"@ + name + "' of type '"@ + owner.type_label@ + "' was already moved at byte "@ + decimal(
        moved_at_or_source(owner).start.offset as nat,
    ) + " and cannot be used again"@
}

/// The reason of an affine escape diagnostic.
pub open spec fn affine_escape_reason(name: Seq<char>, type_label: Seq<char>, context: Seq<char>) -> Seq<char> {
    "affine resource '"@ + name + "' of type '"@ + type_label + "' cannot "@ + context
}

/// The reason of a borrow escape diagnostic.
pub open spec fn borrow_escape_reason(name: Seq<char>, context: Seq<char>) -> Seq<char> {
    "second-class borrow '"@ + name + "' cannot "@ + context
}

/// Build a precise use-after-move diagnostic.
pub fn affine_use_after_move_error(name: &str, owner: &OwnerBinding, span: Span) -> (r: TypeError)
    ensures
        is_constraint_error(r, use_after_move_reason(name@, *owner), span),
{
    let moved_at = match owner.moved_at {
        Some(s) => s,
        None => owner.source_location,
    };
    let offset = decimal_string(moved_at.start.offset);
    TypeError::ConstraintSolvingFailed {
        reason: join7(
            "affine resource '",
            name,
            "' of type '",
            owner.type_label.as_str(),
            "' was already moved at byte ",
            offset.as_str(),
            " and cannot be used again",
        ),
        span: TypeError::span_from_span(span),
    }
}

/// Build a precise affine escape diagnostic.
pub fn affine_escape_error(name: &str, type_label: &str, context: &str, span: Span) -> (r: TypeError)
    ensures
        is_constraint_error(r, affine_escape_reason(name@, type_label@, context@), span),
{
    let mut reason = join5("affine resource '", name, "' of type '", type_label, "' cannot ");
    reason.append(context);
    TypeError::ConstraintSolvingFailed {
        reason,
        span: TypeError::span_from_span(span),
    }
}

/// Build a precise borrow escape diagnostic.
pub fn borrow_escape_error(name: &str, context: &str, span: Span) -> (r: TypeError)
    ensures
        is_constraint_error(r, borrow_escape_reason(name@, context@), span),
{
    let mut reason = join3("second-class borrow '", name, "' cannot ");
    reason.append(context);
    TypeError::ConstraintSolvingFailed {
        reason,
        span: TypeError::span_from_span(span),
    }
}

/// Build a diagnostic for a missing call-site borrow argument.
pub fn borrow_required_error(expected: BorrowKind, span: Span) -> (r: TypeError)
    ensures
        is_constraint_error(
            r,
            "parameter requires a '"@ + borrow_label(expected) + "' call-site borrow argument"@,
            span,
        ),
{
    TypeError::ConstraintSolvingFailed {
        reason: join3("parameter requires a '", borrow_kind_label(expected), "' call-site borrow argument"),
        span: TypeError::span_from_span(span),
    }
}

/// Build a diagnostic for incompatible borrow modes.
pub fn borrow_mode_mismatch_error(expected: BorrowKind, found: BorrowKind, span: Span) -> (r: TypeError)
    ensures
        is_constraint_error(
            r,
            "borrow argument mismatch: expected '"@ + borrow_label(expected) + "', found '"@ + borrow_label(found) + "'"@,
            span,
        ),
{
    TypeError::ConstraintSolvingFailed {
        reason: join5(
            "borrow argument mismatch: expected '",
            borrow_kind_label(expected),
            "', found '",
            borrow_kind_label(found),
            "'",
        ),
        span: TypeError::span_from_span(span),
    }
}

/// Reject a use of `name` after its affine owner was moved; other names pass.
pub fn ensure_owner_not_moved(ownership: &OwnershipState, name: &str, span: Span) -> (r: Result<(), TypeError>)
    requires
        ownership.wf(),
    ensures
        !(ownership.model().owners.contains_key(name@) && ownership.model().owners[name@].moved_at is Some) ==> r is Ok,
        ownership.model().owners.contains_key(name@) && ownership.model().owners[name@].moved_at is Some ==> (r matches Err(
            e,
        ) && is_constraint_error(e, use_after_move_reason(name@, ownership.model().owners[name@]), span)),
{
    match ownership.owner(name) {
        None => Ok(()),
        Some(owner) => {
            if owner.moved_at.is_none() {
                return Ok(());
            }
            Err(affine_use_after_move_error(name, owner, span))
        },
    }
}

/// Reject passing an identifier whose affine owner was already moved.
pub fn ensure_affine_argument_available(ownership: &OwnershipState, argument: &Expr) -> (r: Result<(), TypeError>)
    requires
        ownership.wf(),
    ensures
        match *argument {
            Expr::Identifier { name, span } => {
                &&& !(ownership.model().owners.contains_key(name@) && ownership.model().owners[name@].moved_at is Some)
                    ==> r is Ok
                &&& ownership.model().owners.contains_key(name@) && ownership.model().owners[name@].moved_at is Some ==> (r matches Err(
                    e,
                ) && is_constraint_error(e, use_after_move_reason(name@, ownership.model().owners[name@]), span))
            },
            _ => r is Ok,
        },
{
    match argument {
        Expr::Identifier { name, span } => ensure_owner_not_moved(ownership, name.as_str(), *span),
        _ => Ok(()),
    }
}

/// The expression syntactically produces a fresh call result.
pub open spec fn is_fresh_call_result(e: Expr) -> bool
    decreases e,
{
    match e {
        Expr::Call { .. } | Expr::Guard { .. } => true,
        Expr::Propagate { call, .. } => is_fresh_call_result(*call),
        Expr::Parenthesized { expr, .. } | Expr::Cast { expr, .. } => is_fresh_call_result(*expr),
        _ => false,
    }
}

/// Return whether an expression syntactically produces a fresh call result.
pub fn is_new_owner_call_result(expr: &Expr) -> (r: bool)
    ensures
        r == is_fresh_call_result(*expr),
    decreases expr,
{
    match expr {
        Expr::Call { .. } | Expr::Guard { .. } => true,
        Expr::Propagate { call, .. } => is_new_owner_call_result(&**call),
        Expr::Parenthesized { expr, .. } | Expr::Cast { expr, .. } => is_new_owner_call_result(&**expr),
        _ => false,
    }
}

/// The expression can carry a second-class borrow value as it stands.
pub open spec fn is_borrow_escape_shape(e: Expr) -> bool
    decreases e,
{
    match e {
        Expr::BorrowArgument { .. } | Expr::Identifier { .. } => true,
        Expr::Parenthesized { expr, .. } | Expr::Cast { expr, .. } => is_borrow_escape_shape(*expr),
        _ => false,
    }
}

/// Return whether a non-affine expression can still carry a second-class borrow value.
pub fn is_direct_borrow_escape_shape(expr: &Expr) -> (r: bool)
    ensures
        r == is_borrow_escape_shape(*expr),
    decreases expr,
{
    match expr {
        Expr::BorrowArgument { .. } | Expr::Identifier { .. } => true,
        Expr::Parenthesized { expr, .. } | Expr::Cast { expr, .. } => is_direct_borrow_escape_shape(&**expr),
        _ => false,
    }
}

/// The identifier an expression names through parentheses and borrow markers.
pub open spec fn named_identifier(e: Expr) -> Option<Seq<char>>
    decreases e,
{
    match e {
        Expr::Parenthesized { expr, .. } => named_identifier(*expr),
        Expr::BorrowArgument { target, .. } => named_identifier(*target),
        Expr::Identifier { name, .. } => Some(name@),
        _ => None,
    }
}

/// The identifier an expression names through parentheses and borrow markers.
pub fn identifier_name(expr: &Expr) -> (r: Option<&str>)
    ensures
        match named_identifier(*expr) {
            Some(n) => r matches Some(s) && s@ == n,
            None => r is None,
        },
    decreases expr,
{
    match expr {
        Expr::Parenthesized { expr, .. } => identifier_name(&**expr),
        Expr::BorrowArgument { target, .. } => identifier_name(&**target),
        Expr::Identifier { name, .. } => Some(name.as_str()),
        _ => None,
    }
}

/// The identifier an expression names through parentheses only.
pub open spec fn direct_identifier(e: Expr) -> Option<Seq<char>>
    decreases e,
{
    match e {
        Expr::Identifier { name, .. } => Some(name@),
        Expr::Parenthesized { expr, .. } => direct_identifier(*expr),
        _ => None,
    }
}

/// The identifier an expression names through parentheses only.
pub fn direct_identifier_name(value: &Expr) -> (r: Option<&str>)
    ensures
        match direct_identifier(*value) {
            Some(n) => r matches Some(s) && s@ == n,
            None => r is None,
        },
    decreases value,
{
    match value {
        Expr::Identifier { name, .. } => Some(name.as_str()),
        Expr::Parenthesized { expr, .. } => direct_identifier_name(&**expr),
        _ => None,
    }
}

/// An expression with its enclosing parentheses removed.
pub open spec fn unwrapped(e: Expr) -> Expr
    decreases e,
{
    match e {
        Expr::Parenthesized { expr, .. } => unwrapped(*expr),
        _ => e,
    }
}

/// An expression with its enclosing parentheses removed.
pub fn unwrapped_expr(expr: &Expr) -> (r: &Expr)
    ensures
        *r == unwrapped(*expr),
    decreases expr,
{
    match expr {
        Expr::Parenthesized { expr: inner, .. } => unwrapped_expr(&**inner),
        _ => expr,
    }
}

/// Why `target` cannot be borrowed with mode `expected` (the reason and where), if it can't:
/// it must be a binding whose owner, if any, was not moved, and a mutable borrow may not
/// re-borrow a shared borrow binding.
pub open spec fn borrow_target_problem(
    own: crate::ownership::OwnershipModel,
    target: Expr,
    expected: BorrowKind,
    span: Span,
) -> Option<(Seq<char>, Span)> {
    match target {
        Expr::Identifier { name, span: target_span } => if own.owners.contains_key(name@)
            && own.owners[name@].moved_at is Some {
            Some((use_after_move_reason(name@, own.owners[name@]), target_span))
        } else if expected == BorrowKind::MutableRef && own.borrows.contains_key(name@)
            && own.borrows[name@].borrow_kind != BorrowKind::MutableRef {
            Some((
                "borrow argument mismatch: expected '"@ + borrow_label(BorrowKind::MutableRef) + "', found '"@
                    + borrow_label(own.borrows[name@].borrow_kind) + "'"@,
                span,
            ))
        } else {
            None
        },
        _ => Some((borrow_escape_reason("temporary borrow"@, "borrow a non-binding expression"@), span)),
    }
}

/// Validate the target of an explicit borrow argument: a binding whose owner, if
/// any, was not moved, and which, for a mutable borrow, is not itself a shared borrow.
pub fn validate_borrow_target(ownership: &OwnershipState, target: &Expr, expected: BorrowKind, span: Span) -> (r: Result<
    (),
    TypeError,
>)
    requires
        ownership.wf(),
    ensures
        match borrow_target_problem(ownership.model(), *target, expected, span) {
            None => r is Ok,
            Some(p) => r matches Err(e) && is_constraint_error(e, p.0, p.1),
        },
{
    match target {
        Expr::Identifier { name, span: target_span } => {
            match ensure_owner_not_moved(ownership, name.as_str(), *target_span) {
                Err(e) => return Err(e),
                Ok(()) => {},
            }
            if expected == BorrowKind::MutableRef {
                match ownership.borrow(name.as_str()) {
                    Some(binding) => {
                        if binding.borrow_kind != BorrowKind::MutableRef {
                            return Err(borrow_mode_mismatch_error(BorrowKind::MutableRef, binding.borrow_kind, span));
                        }
                    },
                    None => {},
                }
            }
            Ok(())
        },
        _ => Err(borrow_escape_error("temporary borrow", "borrow a non-binding expression", span)),
    }
}

/// Consume an affine owner passed to an owned parameter: the argument must be a
/// binding, not a borrow, and not already moved; its owner, if any, is marked moved.
pub fn move_affine_argument(ownership: &mut OwnershipState, argument: &Expr, parameter_type: &CoreType) -> (r: Result<
    (),
    TypeError,
>)
    requires
        old(ownership).wf(),
    ensures
        final(ownership).wf(),
        r is Err ==> final(ownership).model() == old(ownership).model(),
        match *argument {
            Expr::Identifier { name, span } => {
                let own = old(ownership).model();
                if own.borrows.contains_key(name@) {
                    r matches Err(e) && is_constraint_error(e, borrow_escape_reason(name@, "be moved into an owned parameter"@), span)
                } else if own.owners.contains_key(name@) && own.owners[name@].moved_at is Some {
                    r matches Err(e) && is_constraint_error(e, use_after_move_reason(name@, own.owners[name@]), span)
                } else {
                    r is Ok && final(ownership).model() == own.owner_moved(name@, span)
                }
            },
            _ => r matches Err(e) && is_constraint_error(
                e,
                affine_escape_reason("<expression>"@, display(model_of(*parameter_type)), "move through a non-binding expression"@),
                argument.span_of(),
            ),
        },
{
    match argument {
        Expr::Identifier { name, span } => {
            if ownership.is_ref_param(name.as_str()) {
                return Err(borrow_escape_error(name.as_str(), "be moved into an owned parameter", *span));
            }
            match ensure_owner_not_moved(ownership, name.as_str(), *span) {
                Err(e) => return Err(e),
                Ok(()) => {},
            }
            ownership.mark_owner_moved(name.as_str(), *span);
            Ok(())
        },
        _ => {
            let shown = parameter_type.display_name();
            Err(affine_escape_error("<expression>", shown.as_str(), "move through a non-binding expression", argument.span()))
        },
    }
}

/// Borrow mode the callee's parameter `index` expects, from the registered borrow modes
/// of the callee's metadata name.
pub open spec fn expected_borrow(own: crate::ownership::OwnershipModel, callee: Expr, index: int) -> Option<BorrowKind> {
    match crate::refinements::borrow_metadata_name(callee) {
        Some(n) => if own.function_borrows.contains_key(n) && 0 <= index < own.function_borrows[n].len() {
            Some(own.function_borrows[n][index])
        } else {
            None
        },
        None => None,
    }
}

/// The borrow mode a call's argument `index` must be passed with, where the callee's
/// parameter modes are registered.
pub fn expected_borrow_kind_for_call(ownership: &OwnershipState, callee: &Expr, index: usize) -> (r: Option<BorrowKind>)
    requires
        ownership.wf(),
    ensures
        r == expected_borrow(ownership.model(), *callee, index as int),
{
    let name = match crate::refinements::callee_borrow_metadata_name(callee) {
        Some(n) => n,
        None => {
            return None;
        },
    };
    match ownership.function_borrow_kinds_for_symbol(name.as_str()) {
        Some(kinds) => if index < kinds.len() {
            Some(kinds[index])
        } else {
            None
        },
        None => None,
    }
}

/// Check explicit `ref` / `mutable ref` call syntax for a parameter expecting `expected`:
/// the argument must be a borrow of that mode whose target is a borrowable binding. The
/// borrowed target is returned for the caller to type.
pub fn check_explicit_borrow_argument<'a>(ownership: &OwnershipState, argument: &'a Expr, expected: BorrowKind) -> (r:
    Result<&'a Expr, TypeError>)
    requires
        ownership.wf(),
    ensures
        match *argument {
            Expr::BorrowArgument { target, borrow_kind, span } => if borrow_kind != expected {
                r matches Err(e) && is_constraint_error(
                    e,
                    "borrow argument mismatch: expected '"@ + borrow_label(expected) + "', found '"@ + borrow_label(
                        borrow_kind,
                    ) + "'"@,
                    span,
                )
            } else {
                match borrow_target_problem(ownership.model(), *target, expected, span) {
                    None => r matches Ok(t) && *t == *target,
                    Some(p) => r matches Err(e) && is_constraint_error(e, p.0, p.1),
                }
            },
            _ => r matches Err(e) && is_constraint_error(
                e,
                "parameter requires a '"@ + borrow_label(expected) + "' call-site borrow argument"@,
                argument.span_of(),
            ),
        },
{
    match argument {
        Expr::BorrowArgument { target, borrow_kind, span } => {
            if *borrow_kind != expected {
                return Err(borrow_mode_mismatch_error(expected, *borrow_kind, *span));
            }
            match validate_borrow_target(ownership, &**target, expected, *span) {
                Ok(()) => Ok(&**target),
                Err(e) => Err(e),
            }
        },
        _ => Err(borrow_required_error(expected, argument.span())),
    }
}

} // verus!
