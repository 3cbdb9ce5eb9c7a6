//! Escape analysis for affine owners and second-class borrows: an expression that
//! stores, returns or captures a value may not mention a live borrow, an owner, or a
//! temporary borrow; lambdas may mention only their own parameters.

use vstd::prelude::*;
use crate::ast::{ConstructorField, Expr, LambdaBody, MatchArm, Parameter, ReturnValue, Stmt, StringPart};
use crate::errors::{is_constraint_error, TypeError};
use crate::ownership::{OwnershipModel, OwnershipState};
use crate::ref_rules::{
    affine_escape_error, affine_escape_reason, affine_use_after_move_error, borrow_escape_error, borrow_escape_reason,
    use_after_move_reason,
};
use crate::text::{names_contain, names_of, owned};
use crate::token::Span;

verus! {

/// A diagnostic reason and where it is reported.
pub type Escape = Option<(Seq<char>, Span)>;

/// The first of two checks that fails.
pub open spec fn first_of(a: Escape, b: Escape) -> Escape {
    if a is Some {
        a
    } else {
        b
    }
}

/// `r` reports the escape `f`, or succeeds when there is none.
pub open spec fn reports_escape(r: Result<(), TypeError>, f: Escape) -> bool {
    match f {
        None => r is Ok,
        Some((reason, span)) => r matches Err(e) && is_constraint_error(e, reason, span),
    }
}

/// The context named when a statement's value is captured.
pub open spec fn captured() -> Seq<char> {
    "be captured"@
}

/// The context named when a lambda captures a value.
pub open spec fn captured_by_lambda() -> Seq<char> {
    "be captured by a lambda"@
}

/// A named binding that may not escape in `context`: a live borrow, or an owner
/// (moved or not).
pub open spec fn identifier_escape(own: OwnershipModel, name: Seq<char>, span: Span, context: Seq<char>) -> Escape {
    if own.borrows.contains_key(name) {
        Some((borrow_escape_reason(name, context), span))
    } else if own.owners.contains_key(name) {
        if own.owners[name].moved_at is Some {
            Some((use_after_move_reason(name, own.owners[name]), span))
        } else {
            Some((affine_escape_reason(name, own.owners[name].type_label@, context), span))
        }
    } else {
        None
    }
}

/// Names of parameters.
pub open spec fn param_names(params: Seq<Parameter>) -> Seq<Seq<char>> {
    params.map_values(|p: Parameter| p.name@)
}

/// The first escape through an expression in `context`.
pub open spec fn escape_of(own: OwnershipModel, e: Expr, context: Seq<char>) -> Escape
    decreases e, 0int,
{
    match e {
        Expr::Identifier { name, span } => identifier_escape(own, name@, span, context),
        Expr::BorrowArgument { span, .. } => Some((borrow_escape_reason("temporary borrow"@, context), span)),
        Expr::Parenthesized { expr, .. } => escape_of(own, *expr, context),
        Expr::TypeOf { expr, .. } => escape_of(own, *expr, context),
        Expr::Cast { expr, .. } => escape_of(own, *expr, context),
        Expr::Unary { operand, .. } => escape_of(own, *operand, context),
        Expr::Binary { left, right, .. } => first_of(escape_of(own, *left, context), escape_of(own, *right, context)),
        Expr::Call { callee, args, .. } => first_of(escape_of(own, *callee, context), args_escape(own, args@, 0, context)),
        Expr::Constructor { callee, fields, .. } => first_of(
            escape_of(own, *callee, context),
            fields_escape(own, fields@, 0, context),
        ),
        Expr::Index { object, index, .. } => first_of(escape_of(own, *object, context), escape_of(own, *index, context)),
        Expr::Member { object, .. } => escape_of(own, *object, context),
        Expr::Constrain { value, .. } => escape_of(own, *value, context),
        Expr::Refinement { value, variant, .. } => first_of(
            escape_of(own, *value, context),
            escape_of(own, *variant, context),
        ),
        Expr::StringInterpolation { parts, .. } => parts_escape(own, parts@, 0, context),
        Expr::If { condition, then_branch, else_branch, .. } => first_of(
            escape_of(own, *condition, context),
            first_of(
                capture_of(own, *then_branch),
                match else_branch {
                    Some(b) => capture_of(own, *b),
                    None => None,
                },
            ),
        ),
        Expr::Array { elements, .. } => exprs_escape(own, elements@, 0, context),
        Expr::Match { scrutinee, arms, .. } => first_of(escape_of(own, *scrutinee, context), arms_escape(own, arms@, 0, context)),
        Expr::Loop { body, .. } => capture_of(own, *body),
        Expr::Lambda { params, body, .. } => lambda_escape(own, param_names(params@), body),
        Expr::Guard { expr, else_branch, .. } => first_of(escape_of(own, *expr, context), capture_of(own, *else_branch)),
        Expr::Propagate { call, cause, .. } => first_of(
            escape_of(own, *call, context),
            match cause {
                Some(c) => escape_of(own, *c, context),
                None => None,
            },
        ),
        Expr::Literal { .. } => None,
    }
}

/// The first escape through call arguments from position `i`; borrow arguments are
/// passed as borrows and do not escape.
pub open spec fn args_escape(own: OwnershipModel, es: Seq<Expr>, i: int, context: Seq<char>) -> Escape
    decreases es, es.len() - i,
{
    if i < 0 || i >= es.len() {
        None
    } else {
        first_of(
            if es[i] is BorrowArgument {
                None
            } else {
                escape_of(own, es[i], context)
            },
            args_escape(own, es, i + 1, context),
        )
    }
}

/// The first escape through expressions from position `i`.
pub open spec fn exprs_escape(own: OwnershipModel, es: Seq<Expr>, i: int, context: Seq<char>) -> Escape
    decreases es, es.len() - i,
{
    if i < 0 || i >= es.len() {
        None
    } else {
        first_of(escape_of(own, es[i], context), exprs_escape(own, es, i + 1, context))
    }
}

/// The first escape through constructor field values from position `i`.
pub open spec fn fields_escape(own: OwnershipModel, fs: Seq<ConstructorField>, i: int, context: Seq<char>) -> Escape
    decreases fs, fs.len() - i,
{
    if i < 0 || i >= fs.len() {
        None
    } else {
        first_of(escape_of(own, fs[i].value, context), fields_escape(own, fs, i + 1, context))
    }
}

/// The first escape through the interpolated expressions from position `i`.
pub open spec fn parts_escape(own: OwnershipModel, ps: Seq<StringPart>, i: int, context: Seq<char>) -> Escape
    decreases ps, ps.len() - i,
{
    if i < 0 || i >= ps.len() {
        None
    } else {
        first_of(
            match ps[i] {
                StringPart::Expression(e) => escape_of(own, e, context),
                StringPart::Text(_) => None,
            },
            parts_escape(own, ps, i + 1, context),
        )
    }
}

/// The first escape through match-arm values from position `i`.
pub open spec fn arms_escape(own: OwnershipModel, arms: Seq<MatchArm>, i: int, context: Seq<char>) -> Escape
    decreases arms, arms.len() - i,
{
    if i < 0 || i >= arms.len() {
        None
    } else {
        first_of(escape_of(own, arms[i].body, context), arms_escape(own, arms, i + 1, context))
    }
}

/// The first escape through returned values from position `i`.
pub open spec fn values_escape(own: OwnershipModel, vs: Seq<ReturnValue>, i: int, context: Seq<char>) -> Escape
    decreases vs, vs.len() - i,
{
    if i < 0 || i >= vs.len() {
        None
    } else {
        first_of(escape_of(own, vs[i].value, context), values_escape(own, vs, i + 1, context))
    }
}

/// The first capture in a statement.
pub open spec fn capture_of(own: OwnershipModel, s: Stmt) -> Escape
    decreases s, 0int,
{
    match s {
        Stmt::Let { initializer, .. } => match initializer {
            Some(e) => escape_of(own, e, captured()),
            None => None,
        },
        Stmt::LetDestructure { initializer, .. } => escape_of(own, initializer, captured()),
        Stmt::Assignment { value, .. } => escape_of(own, value, captured()),
        Stmt::Return { values, .. } => values_escape(own, values@, 0, captured()),
        Stmt::Break { values, .. } => values_escape(own, values@, 0, captured()),
        Stmt::Continue { values, .. } => values_escape(own, values@, 0, captured()),
        Stmt::Expression { expr, .. } => escape_of(own, expr, captured()),
        Stmt::Block { statements, .. } => stmts_capture(own, statements@, 0),
        Stmt::If { condition, then_branch, else_branch, .. } => first_of(
            escape_of(own, condition, captured()),
            first_of(
                capture_of(own, *then_branch),
                match else_branch {
                    Some(b) => capture_of(own, *b),
                    None => None,
                },
            ),
        ),
        Stmt::For { iterable, body, .. } => first_of(escape_of(own, iterable, captured()), capture_of(own, *body)),
        Stmt::While { condition, body, .. } => first_of(escape_of(own, condition, captured()), capture_of(own, *body)),
        Stmt::Guard { expression, else_body, .. } => first_of(
            escape_of(own, *expression, captured()),
            capture_of(own, *else_body),
        ),
        Stmt::Using { acquisition, body, .. } => first_of(escape_of(own, acquisition, captured()), capture_of(own, *body)),
        Stmt::Loop { body, .. } => capture_of(own, *body),
        Stmt::PropagateGuardError { .. } => None,
        Stmt::Comment { .. } => None,
    }
}

/// The first capture in statements from position `i`.
pub open spec fn stmts_capture(own: OwnershipModel, ss: Seq<Stmt>, i: int) -> Escape
    decreases ss, ss.len() - i,
{
    if i < 0 || i >= ss.len() {
        None
    } else {
        first_of(capture_of(own, ss[i]), stmts_capture(own, ss, i + 1))
    }
}

/// The first capture in a lambda body, its parameters `locals` aside.
pub open spec fn lambda_escape(own: OwnershipModel, locals: Seq<Seq<char>>, body: LambdaBody) -> Escape
    decreases body, 0int,
{
    match body {
        LambdaBody::Expression(e) => skipping_escape(own, *e, locals),
        LambdaBody::Block(statements) => stmts_skipping(own, statements@, 0, locals),
    }
}

/// The first capture in an expression of a lambda body, its parameters `locals` aside.
pub open spec fn skipping_escape(own: OwnershipModel, e: Expr, locals: Seq<Seq<char>>) -> Escape
    decreases e, 1int,
{
    match e {
        Expr::Identifier { name, .. } => if locals.contains(name@) {
            None
        } else {
            escape_of(own, e, captured_by_lambda())
        },
        Expr::BorrowArgument { target, .. } => skipping_escape(own, *target, locals),
        Expr::Call { callee, args, .. } => first_of(skipping_escape(own, *callee, locals), exprs_skipping(own, args@, 0, locals)),
        Expr::Parenthesized { expr, .. } => skipping_escape(own, *expr, locals),
        Expr::TypeOf { expr, .. } => skipping_escape(own, *expr, locals),
        Expr::Cast { expr, .. } => skipping_escape(own, *expr, locals),
        Expr::Unary { operand, .. } => skipping_escape(own, *operand, locals),
        Expr::Binary { left, right, .. } => first_of(skipping_escape(own, *left, locals), skipping_escape(own, *right, locals)),
        _ => escape_of(own, e, captured_by_lambda()),
    }
}

/// The first capture in expressions of a lambda body from position `i`.
pub open spec fn exprs_skipping(own: OwnershipModel, es: Seq<Expr>, i: int, locals: Seq<Seq<char>>) -> Escape
    decreases es, es.len() - i,
{
    if i < 0 || i >= es.len() {
        None
    } else {
        first_of(skipping_escape(own, es[i], locals), exprs_skipping(own, es, i + 1, locals))
    }
}

/// The first capture in returned values of a lambda body from position `i`.
pub open spec fn values_skipping(own: OwnershipModel, vs: Seq<ReturnValue>, i: int, locals: Seq<Seq<char>>) -> Escape
    decreases vs, vs.len() - i,
{
    if i < 0 || i >= vs.len() {
        None
    } else {
        first_of(skipping_escape(own, vs[i].value, locals), values_skipping(own, vs, i + 1, locals))
    }
}

/// The first capture in a statement of a lambda body, its parameters `locals` aside.
pub open spec fn stmt_skipping(own: OwnershipModel, s: Stmt, locals: Seq<Seq<char>>) -> Escape
    decreases s, 1int,
{
    match s {
        Stmt::Let { initializer, .. } => match initializer {
            Some(e) => skipping_escape(own, e, locals),
            None => None,
        },
        Stmt::Expression { expr, .. } => skipping_escape(own, expr, locals),
        Stmt::Return { values, .. } => values_skipping(own, values@, 0, locals),
        Stmt::Break { values, .. } => values_skipping(own, values@, 0, locals),
        Stmt::Continue { values, .. } => values_skipping(own, values@, 0, locals),
        Stmt::Block { statements, .. } => stmts_skipping(own, statements@, 0, locals),
        _ => capture_of(own, s),
    }
}

/// The first capture in statements of a lambda body from position `i`.
pub open spec fn stmts_skipping(own: OwnershipModel, ss: Seq<Stmt>, i: int, locals: Seq<Seq<char>>) -> Escape
    decreases ss, ss.len() - i,
{
    if i < 0 || i >= ss.len() {
        None
    } else {
        first_of(stmt_skipping(own, ss[i], locals), stmts_skipping(own, ss, i + 1, locals))
    }
}

/// Reject a named binding that may not escape in `context_description`.
fn check_identifier_escape(ownership: &OwnershipState, name: &str, span: Span, context_description: &str) -> (r: Result<
    (),
    TypeError,
>)
    requires
        ownership.wf(),
    ensures
        reports_escape(r, identifier_escape(ownership.model(), name@, span, context_description@)),
{
    if ownership.is_ref_param(name) {
        return Err(borrow_escape_error(name, context_description, span));
    }
    match ownership.owner(name) {
        Some(owner) => {
            if owner.moved_at.is_some() {
                Err(affine_use_after_move_error(name, owner, span))
            } else {
                Err(affine_escape_error(name, owner.type_label.as_str(), context_description, span))
            }
        },
        None => Ok(()),
    }
}

/// Recursively detect an owner or borrow escaping through an expression in
/// `context_description`; the first one found is reported.
pub fn check_affine_or_borrow_escape(ownership: &OwnershipState, expr: &Expr, context_description: &str) -> (r: Result<
    (),
    TypeError,
>)
    requires
        ownership.wf(),
    ensures
        reports_escape(r, escape_of(ownership.model(), *expr, context_description@)),
    decreases expr, 0int,
{
    match expr {
        Expr::Identifier { name, span } => check_identifier_escape(ownership, name.as_str(), *span, context_description),
        Expr::BorrowArgument { span, .. } => Err(borrow_escape_error("temporary borrow", context_description, *span)),
        Expr::Parenthesized { expr, .. } => check_affine_or_borrow_escape(ownership, &**expr, context_description),
        Expr::TypeOf { expr, .. } => check_affine_or_borrow_escape(ownership, &**expr, context_description),
        Expr::Cast { expr, .. } => check_affine_or_borrow_escape(ownership, &**expr, context_description),
        Expr::Unary { operand, .. } => check_affine_or_borrow_escape(ownership, &**operand, context_description),
        Expr::Binary { left, right, .. } => {
            match check_affine_or_borrow_escape(ownership, &**left, context_description) {
                Err(e) => return Err(e),
                Ok(()) => {},
            }
            check_affine_or_borrow_escape(ownership, &**right, context_description)
        },
        Expr::Call { callee, args, .. } => {
            match check_affine_or_borrow_escape(ownership, &**callee, context_description) {
                Err(e) => return Err(e),
                Ok(()) => {},
            }
            check_call_args(ownership, args, context_description)
        },
        Expr::Constructor { callee, fields, .. } => {
            match check_affine_or_borrow_escape(ownership, &**callee, context_description) {
                Err(e) => return Err(e),
                Ok(()) => {},
            }
            check_constructor_fields(ownership, fields, context_description)
        },
        Expr::Index { object, index, .. } => {
            match check_affine_or_borrow_escape(ownership, &**object, context_description) {
                Err(e) => return Err(e),
                Ok(()) => {},
            }
            check_affine_or_borrow_escape(ownership, &**index, context_description)
        },
        Expr::Member { object, .. } => check_affine_or_borrow_escape(ownership, &**object, context_description),
        Expr::Constrain { value, .. } => check_affine_or_borrow_escape(ownership, &**value, context_description),
        Expr::Refinement { value, variant, .. } => {
            match check_affine_or_borrow_escape(ownership, &**value, context_description) {
                Err(e) => return Err(e),
                Ok(()) => {},
            }
            check_affine_or_borrow_escape(ownership, &**variant, context_description)
        },
        Expr::StringInterpolation { parts, .. } => check_interpolation_parts(ownership, parts, context_description),
        Expr::If { condition, then_branch, else_branch, .. } => {
            match check_affine_or_borrow_escape(ownership, &**condition, context_description) {
                Err(e) => return Err(e),
                Ok(()) => {},
            }
            match check_stmt_for_ref_capture(ownership, &**then_branch) {
                Err(e) => return Err(e),
                Ok(()) => {},
            }
            match else_branch {
                Some(branch) => check_stmt_for_ref_capture(ownership, &**branch),
                None => Ok(()),
            }
        },
        Expr::Array { elements, .. } => check_expressions(ownership, elements, context_description),
        Expr::Match { scrutinee, arms, .. } => {
            match check_affine_or_borrow_escape(ownership, &**scrutinee, context_description) {
                Err(e) => return Err(e),
                Ok(()) => {},
            }
            check_arm_bodies(ownership, arms, context_description)
        },
        Expr::Loop { body, .. } => check_stmt_for_ref_capture(ownership, &**body),
        Expr::Lambda { params, body, span, .. } => check_lambda_captures_no_ref_params(ownership, params, body, *span),
        Expr::Guard { expr, else_branch, .. } => {
            match check_affine_or_borrow_escape(ownership, &**expr, context_description) {
                Err(e) => return Err(e),
                Ok(()) => {},
            }
            check_stmt_for_ref_capture(ownership, &**else_branch)
        },
        Expr::Propagate { call, cause, .. } => {
            match check_affine_or_borrow_escape(ownership, &**call, context_description) {
                Err(e) => return Err(e),
                Ok(()) => {},
            }
            match cause {
                Some(c) => check_affine_or_borrow_escape(ownership, &**c, context_description),
                None => Ok(()),
            }
        },
        Expr::Literal { .. } => Ok(()),
    }
}

/// Call arguments other than borrow arguments may not escape.
fn check_call_args(ownership: &OwnershipState, args: &Vec<Expr>, context_description: &str) -> (r: Result<(), TypeError>)
    requires
        ownership.wf(),
    ensures
        reports_escape(r, args_escape(ownership.model(), args@, 0, context_description@)),
    decreases args, 0int,
{
    let mut i: usize = 0;
    while i < args.len()
        invariant
            ownership.wf(),
            i <= args@.len(),
            args_escape(ownership.model(), args@, 0, context_description@) == args_escape(
                ownership.model(),
                args@,
                i as int,
                context_description@,
            ),
        decreases args@.len() - i,
    {
        proof {
            vstd::std_specs::vec::axiom_vec_index_decreases(*args, i as int);
        }
        let borrowed = match &args[i] {
            Expr::BorrowArgument { .. } => true,
            _ => false,
        };
        if !borrowed {
            match check_affine_or_borrow_escape(ownership, &args[i], context_description) {
                Err(e) => return Err(e),
                Ok(()) => {},
            }
        }
        i = i + 1;
    }
    Ok(())
}

/// Array elements may not escape.
fn check_expressions(ownership: &OwnershipState, elements: &Vec<Expr>, context_description: &str) -> (r: Result<
    (),
    TypeError,
>)
    requires
        ownership.wf(),
    ensures
        reports_escape(r, exprs_escape(ownership.model(), elements@, 0, context_description@)),
    decreases elements, 0int,
{
    let mut i: usize = 0;
    while i < elements.len()
        invariant
            ownership.wf(),
            i <= elements@.len(),
            exprs_escape(ownership.model(), elements@, 0, context_description@) == exprs_escape(
                ownership.model(),
                elements@,
                i as int,
                context_description@,
            ),
        decreases elements@.len() - i,
    {
        proof {
            vstd::std_specs::vec::axiom_vec_index_decreases(*elements, i as int);
        }
        match check_affine_or_borrow_escape(ownership, &elements[i], context_description) {
            Err(e) => return Err(e),
            Ok(()) => {},
        }
        i = i + 1;
    }
    Ok(())
}

/// Constructor field values may not escape.
fn check_constructor_fields(ownership: &OwnershipState, fields: &Vec<ConstructorField>, context_description: &str) -> (r:
    Result<(), TypeError>)
    requires
        ownership.wf(),
    ensures
        reports_escape(r, fields_escape(ownership.model(), fields@, 0, context_description@)),
    decreases fields, 0int,
{
    let mut i: usize = 0;
    while i < fields.len()
        invariant
            ownership.wf(),
            i <= fields@.len(),
            fields_escape(ownership.model(), fields@, 0, context_description@) == fields_escape(
                ownership.model(),
                fields@,
                i as int,
                context_description@,
            ),
        decreases fields@.len() - i,
    {
        proof {
            vstd::std_specs::vec::axiom_vec_index_decreases(*fields, i as int);
        }
        match check_affine_or_borrow_escape(ownership, &fields[i].value, context_description) {
            Err(e) => return Err(e),
            Ok(()) => {},
        }
        i = i + 1;
    }
    Ok(())
}

/// Interpolated expressions may not escape.
fn check_interpolation_parts(ownership: &OwnershipState, parts: &Vec<StringPart>, context_description: &str) -> (r:
    Result<(), TypeError>)
    requires
        ownership.wf(),
    ensures
        reports_escape(r, parts_escape(ownership.model(), parts@, 0, context_description@)),
    decreases parts, 0int,
{
    let mut i: usize = 0;
    while i < parts.len()
        invariant
            ownership.wf(),
            i <= parts@.len(),
            parts_escape(ownership.model(), parts@, 0, context_description@) == parts_escape(
                ownership.model(),
                parts@,
                i as int,
                context_description@,
            ),
        decreases parts@.len() - i,
    {
        proof {
            vstd::std_specs::vec::axiom_vec_index_decreases(*parts, i as int);
        }
        match &parts[i] {
            StringPart::Expression(expression) => {
                match check_affine_or_borrow_escape(ownership, expression, context_description) {
                    Err(e) => return Err(e),
                    Ok(()) => {},
                }
            },
            StringPart::Text(_) => {},
        }
        i = i + 1;
    }
    Ok(())
}

/// Match-arm values may not escape.
fn check_arm_bodies(ownership: &OwnershipState, arms: &Vec<MatchArm>, context_description: &str) -> (r: Result<
    (),
    TypeError,
>)
    requires
        ownership.wf(),
    ensures
        reports_escape(r, arms_escape(ownership.model(), arms@, 0, context_description@)),
    decreases arms, 0int,
{
    let mut i: usize = 0;
    while i < arms.len()
        invariant
            ownership.wf(),
            i <= arms@.len(),
            arms_escape(ownership.model(), arms@, 0, context_description@) == arms_escape(
                ownership.model(),
                arms@,
                i as int,
                context_description@,
            ),
        decreases arms@.len() - i,
    {
        proof {
            vstd::std_specs::vec::axiom_vec_index_decreases(*arms, i as int);
        }
        match check_affine_or_borrow_escape(ownership, &arms[i].body, context_description) {
            Err(e) => return Err(e),
            Ok(()) => {},
        }
        i = i + 1;
    }
    Ok(())
}

/// Returned values may not be captured.
fn check_return_values(ownership: &OwnershipState, values: &Vec<ReturnValue>) -> (r: Result<(), TypeError>)
    requires
        ownership.wf(),
    ensures
        reports_escape(r, values_escape(ownership.model(), values@, 0, captured())),
    decreases values, 0int,
{
    let mut i: usize = 0;
    while i < values.len()
        invariant
            ownership.wf(),
            i <= values@.len(),
            values_escape(ownership.model(), values@, 0, captured()) == values_escape(
                ownership.model(),
                values@,
                i as int,
                captured(),
            ),
        decreases values@.len() - i,
    {
        proof {
            vstd::std_specs::vec::axiom_vec_index_decreases(*values, i as int);
        }
        match check_expr_for_ref_capture(ownership, &values[i].value) {
            Err(e) => return Err(e),
            Ok(()) => {},
        }
        i = i + 1;
    }
    Ok(())
}

/// Statements of a block may not capture.
fn check_statements(ownership: &OwnershipState, statements: &Vec<Stmt>) -> (r: Result<(), TypeError>)
    requires
        ownership.wf(),
    ensures
        reports_escape(r, stmts_capture(ownership.model(), statements@, 0)),
    decreases statements, 0int,
{
    let mut i: usize = 0;
    while i < statements.len()
        invariant
            ownership.wf(),
            i <= statements@.len(),
            stmts_capture(ownership.model(), statements@, 0) == stmts_capture(ownership.model(), statements@, i as int),
        decreases statements@.len() - i,
    {
        proof {
            vstd::std_specs::vec::axiom_vec_index_decreases(*statements, i as int);
        }
        match check_stmt_for_ref_capture(ownership, &statements[i]) {
            Err(e) => return Err(e),
            Ok(()) => {},
        }
        i = i + 1;
    }
    Ok(())
}

/// Check if an expression captures a second-class borrow or affine owner.
pub fn check_expr_for_ref_capture(ownership: &OwnershipState, expr: &Expr) -> (r: Result<(), TypeError>)
    requires
        ownership.wf(),
    ensures
        reports_escape(r, escape_of(ownership.model(), *expr, captured())),
    decreases expr, 1int,
{
    check_affine_or_borrow_escape(ownership, expr, "be captured")
}

/// Check if a statement captures a second-class borrow or affine owner.
pub fn check_stmt_for_ref_capture(ownership: &OwnershipState, stmt: &Stmt) -> (r: Result<(), TypeError>)
    requires
        ownership.wf(),
    ensures
        reports_escape(r, capture_of(ownership.model(), *stmt)),
    decreases stmt, 0int,
{
    match stmt {
        Stmt::Let { initializer, .. } => match initializer {
            Some(expr) => check_expr_for_ref_capture(ownership, expr),
            None => Ok(()),
        },
        Stmt::LetDestructure { initializer, .. } => check_expr_for_ref_capture(ownership, initializer),
        Stmt::Assignment { value, .. } => check_expr_for_ref_capture(ownership, value),
        Stmt::Return { values, .. } => check_return_values(ownership, values),
        Stmt::Break { values, .. } => check_return_values(ownership, values),
        Stmt::Continue { values, .. } => check_return_values(ownership, values),
        Stmt::Expression { expr, .. } => check_expr_for_ref_capture(ownership, expr),
        Stmt::Block { statements, .. } => check_statements(ownership, statements),
        Stmt::If { condition, then_branch, else_branch, .. } => {
            match check_expr_for_ref_capture(ownership, condition) {
                Err(e) => return Err(e),
                Ok(()) => {},
            }
            match check_stmt_for_ref_capture(ownership, &**then_branch) {
                Err(e) => return Err(e),
                Ok(()) => {},
            }
            match else_branch {
                Some(branch) => check_stmt_for_ref_capture(ownership, &**branch),
                None => Ok(()),
            }
        },
        Stmt::For { iterable, body, .. } => {
            match check_expr_for_ref_capture(ownership, iterable) {
                Err(e) => return Err(e),
                Ok(()) => {},
            }
            check_stmt_for_ref_capture(ownership, &**body)
        },
        Stmt::While { condition, body, .. } => {
            match check_expr_for_ref_capture(ownership, condition) {
                Err(e) => return Err(e),
                Ok(()) => {},
            }
            check_stmt_for_ref_capture(ownership, &**body)
        },
        Stmt::Guard { expression, else_body, .. } => {
            match check_expr_for_ref_capture(ownership, &**expression) {
                Err(e) => return Err(e),
                Ok(()) => {},
            }
            check_stmt_for_ref_capture(ownership, &**else_body)
        },
        Stmt::Using { acquisition, body, .. } => {
            match check_expr_for_ref_capture(ownership, acquisition) {
                Err(e) => return Err(e),
                Ok(()) => {},
            }
            check_stmt_for_ref_capture(ownership, &**body)
        },
        Stmt::Loop { body, .. } => check_stmt_for_ref_capture(ownership, &**body),
        Stmt::PropagateGuardError { .. } => Ok(()),
        Stmt::Comment { .. } => Ok(()),
    }
}

/// Reject lambdas that close over affine owners or second-class borrows; their own
/// parameters aside.
pub fn check_lambda_captures_no_ref_params(
    ownership: &OwnershipState,
    parameters: &Vec<Parameter>,
    body: &LambdaBody,
    span: Span,
) -> (r: Result<(), TypeError>)
    requires
        ownership.wf(),
    ensures
        reports_escape(r, lambda_escape(ownership.model(), param_names(parameters@), *body)),
    decreases body, 1int,
{
    let mut local_names: Vec<String> = Vec::new();
    let mut i: usize = 0;
    while i < parameters.len()
        invariant
            i <= parameters@.len(),
            local_names@.len() == i,
            forall|j: int| 0 <= j < i ==> #[trigger] local_names@[j]@ == parameters@[j].name@,
        decreases parameters@.len() - i,
    {
        local_names.push(owned(parameters[i].name.as_str()));
        i = i + 1;
    }
    assert(names_of(local_names@) =~= param_names(parameters@));
    check_lambda_body_for_capture(ownership, body, &local_names, span)
}

/// Check lambda body capture while ignoring names declared as lambda parameters.
pub fn check_lambda_body_for_capture(
    ownership: &OwnershipState,
    body: &LambdaBody,
    local_names: &Vec<String>,
    span: Span,
) -> (r: Result<(), TypeError>)
    requires
        ownership.wf(),
    ensures
        reports_escape(r, lambda_escape(ownership.model(), names_of(local_names@), *body)),
    decreases body, 0int,
{
    match body {
        LambdaBody::Expression(expr) => check_expr_for_capture_skipping_locals(ownership, &**expr, local_names),
        LambdaBody::Block(statements) => check_statements_skipping_locals(ownership, statements, local_names, span),
    }
}

/// Check expression capture while ignoring lambda-local parameter names.
pub fn check_expr_for_capture_skipping_locals(ownership: &OwnershipState, expr: &Expr, local_names: &Vec<String>) -> (r:
    Result<(), TypeError>)
    requires
        ownership.wf(),
    ensures
        reports_escape(r, skipping_escape(ownership.model(), *expr, names_of(local_names@))),
    decreases expr, 1int,
{
    match expr {
        Expr::Identifier { name, .. } => {
            if names_contain(local_names, name.as_str()) {
                Ok(())
            } else {
                check_affine_or_borrow_escape(ownership, expr, "be captured by a lambda")
            }
        },
        Expr::BorrowArgument { target, .. } => check_expr_for_capture_skipping_locals(ownership, &**target, local_names),
        Expr::Call { callee, args, .. } => {
            match check_expr_for_capture_skipping_locals(ownership, &**callee, local_names) {
                Err(e) => return Err(e),
                Ok(()) => {},
            }
            check_expressions_skipping_locals(ownership, args, local_names)
        },
        Expr::Parenthesized { expr: inner, .. } => check_expr_for_capture_skipping_locals(ownership, &**inner, local_names),
        Expr::TypeOf { expr: inner, .. } => check_expr_for_capture_skipping_locals(ownership, &**inner, local_names),
        Expr::Cast { expr: inner, .. } => check_expr_for_capture_skipping_locals(ownership, &**inner, local_names),
        Expr::Unary { operand, .. } => check_expr_for_capture_skipping_locals(ownership, &**operand, local_names),
        Expr::Binary { left, right, .. } => {
            match check_expr_for_capture_skipping_locals(ownership, &**left, local_names) {
                Err(e) => return Err(e),
                Ok(()) => {},
            }
            check_expr_for_capture_skipping_locals(ownership, &**right, local_names)
        },
        _ => check_affine_or_borrow_escape(ownership, expr, "be captured by a lambda"),
    }
}

/// Call arguments in a lambda body, its parameters aside.
fn check_expressions_skipping_locals(ownership: &OwnershipState, args: &Vec<Expr>, local_names: &Vec<String>) -> (r:
    Result<(), TypeError>)
    requires
        ownership.wf(),
    ensures
        reports_escape(r, exprs_skipping(ownership.model(), args@, 0, names_of(local_names@))),
    decreases args, 0int,
{
    let mut i: usize = 0;
    while i < args.len()
        invariant
            ownership.wf(),
            i <= args@.len(),
            exprs_skipping(ownership.model(), args@, 0, names_of(local_names@)) == exprs_skipping(
                ownership.model(),
                args@,
                i as int,
                names_of(local_names@),
            ),
        decreases args@.len() - i,
    {
        proof {
            vstd::std_specs::vec::axiom_vec_index_decreases(*args, i as int);
        }
        match check_expr_for_capture_skipping_locals(ownership, &args[i], local_names) {
            Err(e) => return Err(e),
            Ok(()) => {},
        }
        i = i + 1;
    }
    Ok(())
}

/// Returned values in a lambda body, its parameters aside.
fn check_values_skipping_locals(ownership: &OwnershipState, values: &Vec<ReturnValue>, local_names: &Vec<String>) -> (r:
    Result<(), TypeError>)
    requires
        ownership.wf(),
    ensures
        reports_escape(r, values_skipping(ownership.model(), values@, 0, names_of(local_names@))),
    decreases values, 0int,
{
    let mut i: usize = 0;
    while i < values.len()
        invariant
            ownership.wf(),
            i <= values@.len(),
            values_skipping(ownership.model(), values@, 0, names_of(local_names@)) == values_skipping(
                ownership.model(),
                values@,
                i as int,
                names_of(local_names@),
            ),
        decreases values@.len() - i,
    {
        proof {
            vstd::std_specs::vec::axiom_vec_index_decreases(*values, i as int);
        }
        match check_expr_for_capture_skipping_locals(ownership, &values[i].value, local_names) {
            Err(e) => return Err(e),
            Ok(()) => {},
        }
        i = i + 1;
    }
    Ok(())
}

/// Check statement capture while ignoring lambda-local parameter names.
pub fn check_stmt_for_capture_skipping_locals(
    ownership: &OwnershipState,
    stmt: &Stmt,
    local_names: &Vec<String>,
    span: Span,
) -> (r: Result<(), TypeError>)
    requires
        ownership.wf(),
    ensures
        reports_escape(r, stmt_skipping(ownership.model(), *stmt, names_of(local_names@))),
    decreases stmt, 1int,
{
    match stmt {
        Stmt::Let { initializer, .. } => match initializer {
            Some(expr) => check_expr_for_capture_skipping_locals(ownership, expr, local_names),
            None => Ok(()),
        },
        Stmt::Expression { expr, .. } => check_expr_for_capture_skipping_locals(ownership, expr, local_names),
        Stmt::Return { values, .. } => check_values_skipping_locals(ownership, values, local_names),
        Stmt::Break { values, .. } => check_values_skipping_locals(ownership, values, local_names),
        Stmt::Continue { values, .. } => check_values_skipping_locals(ownership, values, local_names),
        Stmt::Block { statements, .. } => check_statements_skipping_locals(ownership, statements, local_names, span),
        _ => check_stmt_for_ref_capture(ownership, stmt),
    }
}

/// Statements of a lambda body, its parameters aside.
fn check_statements_skipping_locals(
    ownership: &OwnershipState,
    statements: &Vec<Stmt>,
    local_names: &Vec<String>,
    span: Span,
) -> (r: Result<(), TypeError>)
    requires
        ownership.wf(),
    ensures
        reports_escape(r, stmts_skipping(ownership.model(), statements@, 0, names_of(local_names@))),
    decreases statements, 0int,
{
    let mut i: usize = 0;
    while i < statements.len()
        invariant
            ownership.wf(),
            i <= statements@.len(),
            stmts_skipping(ownership.model(), statements@, 0, names_of(local_names@)) == stmts_skipping(
                ownership.model(),
                statements@,
                i as int,
                names_of(local_names@),
            ),
        decreases statements@.len() - i,
    {
        proof {
            vstd::std_specs::vec::axiom_vec_index_decreases(*statements, i as int);
        }
        match check_stmt_for_capture_skipping_locals(ownership, &statements[i], local_names, span) {
            Err(e) => return Err(e),
            Ok(()) => {},
        }
        i = i + 1;
    }
    Ok(())
}


/// Expressions from position `i` on escape exactly when one of them does, and the
/// escape reported is that of the first one that does.
#[verifier::spinoff_prover]
#[verifier::rlimit(80)]
proof fn lemma_exprs_escape(own: OwnershipModel, es: Seq<Expr>, i: int, context: Seq<char>)
    requires
        0 <= i <= es.len(),
    ensures
        exprs_escape(own, es, i, context) is Some <==> exists|j: int| i <= j < es.len() && #[trigger] escape_of(own, es[j], context) is Some,
        forall|j: int|
            i <= j < es.len() && #[trigger] escape_of(own, es[j], context) is Some && (forall|k: int| i <= k < j ==> escape_of(own, es[k], context) is None)
                ==> exprs_escape(own, es, i, context) == escape_of(own, es[j], context),
    decreases es.len() - i,
{
    if i < es.len() {
        lemma_exprs_escape(own, es, i + 1, context);
        let here = escape_of(own, es[i], context);
        assert(exprs_escape(own, es, i, context) == first_of(here, exprs_escape(own, es, i + 1, context)));
        if exists|j: int| i <= j < es.len() && #[trigger] escape_of(own, es[j], context) is Some {
            let j = choose|j: int| i <= j < es.len() && #[trigger] escape_of(own, es[j], context) is Some;
            if j > i && escape_of(own, es[i], context) is None {
                assert(i + 1 <= j < es.len() && escape_of(own, es[j], context) is Some);
            }
        }
    }
}

/// Call arguments from position `i` on escape exactly when one that is not itself a
/// borrow argument does.
#[verifier::spinoff_prover]
#[verifier::rlimit(80)]
proof fn lemma_args_escape(own: OwnershipModel, es: Seq<Expr>, i: int, context: Seq<char>)
    requires
        0 <= i <= es.len(),
    ensures
        args_escape(own, es, i, context) is Some <==> exists|j: int|
            i <= j < es.len() && !(es[j] is BorrowArgument) && #[trigger] escape_of(own, es[j], context) is Some,
    decreases es.len() - i,
{
    if i < es.len() {
        lemma_args_escape(own, es, i + 1, context);
        let here = escape_of(own, es[i], context);
        if !(es[i] is BorrowArgument) && here is Some {
            assert(args_escape(own, es, i, context) == here);
        } else {
            assert(args_escape(own, es, i, context) == args_escape(own, es, i + 1, context));
        }
        if exists|j: int| i <= j < es.len() && !(es[j] is BorrowArgument) && #[trigger] escape_of(own, es[j], context) is Some {
            let j = choose|j: int| i <= j < es.len() && !(es[j] is BorrowArgument) && #[trigger] escape_of(own, es[j], context) is Some;
            if j > i {
                assert(i + 1 <= j < es.len() && !(es[j] is BorrowArgument) && escape_of(own, es[j], context) is Some);
            }
        }
    }
}

/// The escape is reported at `span`.
pub open spec fn reported_at(x: Escape, span: Span) -> bool {
    x matches Some(p) && p.1 == span
}

/// How values escape: a named binding escapes exactly when it is a live borrow or an
/// owner, and is reported where it is named; a temporary borrow always escapes and a
/// literal never does; an array literal escapes exactly when one of its elements does,
/// reporting the first such element; an operator, index or call escapes exactly when
/// one of its operands does (call arguments passed as borrows excepted); and wrapping a
/// value in parentheses, a cast, a unary operator, a member access, `typeof` or a
/// constraint does not change whether or how it escapes.
pub proof fn law_escape_through_values(own: OwnershipModel, e: Expr, context: Seq<char>)
    ensures
        e matches Expr::Identifier { name, span } ==> ((escape_of(own, e, context) is Some <==> (own.borrows.contains_key(name@)
            || own.owners.contains_key(name@))) && (escape_of(own, e, context) is Some ==> reported_at(escape_of(own, e, context), span))),
        e is Literal ==> escape_of(own, e, context) is None,
        e matches Expr::BorrowArgument { span, .. } ==> reported_at(escape_of(own, e, context), span),
        e matches Expr::Array { elements, .. } ==> ((escape_of(own, e, context) is Some <==> exists|i: int|
            0 <= i < elements@.len() && #[trigger] escape_of(own, elements@[i], context) is Some) && forall|i: int|
            0 <= i < elements@.len() && #[trigger] escape_of(own, elements@[i], context) is Some && (forall|k: int|
                0 <= k < i ==> escape_of(own, elements@[k], context) is None) ==> escape_of(own, e, context) == escape_of(
                own,
                elements@[i],
                context,
            )),
        e matches Expr::Binary { left, right, .. } ==> (escape_of(own, e, context) is Some <==> (escape_of(own, *left, context) is Some
            || escape_of(own, *right, context) is Some)),
        e matches Expr::Index { object, index, .. } ==> (escape_of(own, e, context) is Some <==> (escape_of(own, *object, context) is Some
            || escape_of(own, *index, context) is Some)),
        e matches Expr::Call { callee, args, .. } ==> (escape_of(own, e, context) is Some <==> (escape_of(own, *callee, context) is Some
            || exists|i: int| 0 <= i < args@.len() && !(args@[i] is BorrowArgument) && #[trigger] escape_of(own, args@[i], context) is Some)),
        e matches Expr::Parenthesized { expr, .. } ==> escape_of(own, e, context) == escape_of(own, *expr, context),
        e matches Expr::Cast { expr, .. } ==> escape_of(own, e, context) == escape_of(own, *expr, context),
        e matches Expr::TypeOf { expr, .. } ==> escape_of(own, e, context) == escape_of(own, *expr, context),
        e matches Expr::Unary { operand, .. } ==> escape_of(own, e, context) == escape_of(own, *operand, context),
        e matches Expr::Member { object, .. } ==> escape_of(own, e, context) == escape_of(own, *object, context),
        e matches Expr::Constrain { value, .. } ==> escape_of(own, e, context) == escape_of(own, *value, context),
{
    match e {
        Expr::Array { elements, .. } => lemma_exprs_escape(own, elements@, 0, context),
        Expr::Call { callee, args, .. } => lemma_args_escape(own, args@, 0, context),
        _ => {},
    }
}

} // verus!
