//! Typing rules of operators, indexing and casts over already-typed operands.

use vstd::prelude::*;
use crate::ast::{BinaryOp, Expr, UnaryOp};
use crate::arithmetic::constant_value;
use crate::checker_helpers::{
    arithmetic_overflows, binary_op_name, binary_operation_name, coerce_literal_to_expected,
    coerced_literal_type, constant_integer_overflow_warning, ensure_boolean_type, ensure_integer_type,
    ensure_numeric_type, ensure_same_type, invalid_operation_error, is_integer_model,
    is_integer_type, is_invalid_operation, is_invalid_shift, is_string_type, is_type_mismatch,
    numeric_kind, shift_violation, type_mismatch_error, unary_op_name, unary_operation_name,
    validate_constant_shift_bounds, zero_divisor_name, zero_divisor_operation_name,
};
use crate::constraints::TypeConstraint;
use crate::expression_metadata::{binary_metadata_recorded, record_binary_expr_metadata, ExprMetadata};
use crate::errors::{diagnostic_span_of, TypeError, Warning};
use crate::token::Span;
use crate::type_rules::{compatible, types_compatible};
use crate::types::{display, model_of, CoreType, TypeModel};
use crate::ast::Type;
use crate::checker_helpers::{safe_cast, valid_cast};
use crate::type_rules::{annotation_model, ast_type_to_core_type, converted, validate_cast_with_warnings};

verus! {

/// The outcome of typing a binary expression, before it is turned into values.
pub ghost enum BinaryVerdict {
    /// The expression has type `result`; `constrained` is the equality constraint recorded
    /// between the two normalized operand types, and `overflow` says whether a constant
    /// overflow warning is emitted.
    Typed { result: TypeModel, constrained: Option<(TypeModel, TypeModel)>, overflow: bool },
    /// The operation is not defined on an operand type.
    Invalid { operation: Seq<char>, operand: TypeModel, span: Span },
    /// The divisor is the constant zero.
    ZeroDivisor { operation: Seq<char>, span: Span },
    /// The two operand types disagree.
    Mismatch { expected: TypeModel, expected_span: Span, found: TypeModel, found_span: Span },
    /// A constant shift count is out of range.
    BadShift { reason: Seq<char>, count: int, width: u32, span: Span },
}

/// Operand type after a literal on that side is coerced to the other side's type.
pub open spec fn normalized(other: TypeModel, e: Expr, own: TypeModel) -> TypeModel {
    match coerced_literal_type(other, e, own) {
        Some(t) => t,
        None => own,
    }
}

/// Whether a constant integer overflow warning applies to `left op right` at type `m`.
pub open spec fn constant_overflow(op: BinaryOp, left: Expr, right: Expr, m: TypeModel) -> bool {
    match (constant_value(left), constant_value(right)) {
        (Some(l), Some(r)) => arithmetic_overflows(op, m, l, r),
        _ => false,
    }
}

/// Operators typed as numeric arithmetic.
pub open spec fn is_arithmetic_op(op: BinaryOp) -> bool {
    op is Add || op is Subtract || op is Multiply || op is Divide || op is DivEuclid || op is Power
}

/// Operators typed as integer remainders.
pub open spec fn is_remainder_op(op: BinaryOp) -> bool {
    op is Modulo || op is ModEuclid
}

/// Operators typed as equality or identity tests.
pub open spec fn is_equality_op(op: BinaryOp) -> bool {
    op is Equal || op is NotEqual || op is Is || op is IsNot
}

/// Operators typed as numeric orderings.
pub open spec fn is_ordering_op(op: BinaryOp) -> bool {
    op is Less || op is LessEqual || op is Greater || op is GreaterEqual
}

/// Operators typed as boolean connectives.
pub open spec fn is_logical_op(op: BinaryOp) -> bool {
    op is And || op is Or || op is Xor
}

/// Operators typed as bitwise combinations.
pub open spec fn is_bitwise_op(op: BinaryOp) -> bool {
    op is BitAnd || op is BitOr || op is BitXor
}

/// Operators typed as shifts.
pub open spec fn is_shift_op(op: BinaryOp) -> bool {
    op is BitShiftLeft || op is BitShiftRight || op is BitUnsignedShiftRight
}

/// Verdict for arithmetic operators.
pub open spec fn arithmetic_verdict(op: BinaryOp, left: Expr, right: Expr, lm: TypeModel, rm: TypeModel) -> BinaryVerdict {
    let name = binary_op_name(op);
    let nl = normalized(rm, left, lm);
    let nr = normalized(lm, right, rm);
    if lm == TypeModel::String && rm == TypeModel::String {
        BinaryVerdict::Typed { result: TypeModel::String, constrained: None, overflow: false }
    } else if numeric_kind(lm) is None {
        BinaryVerdict::Invalid { operation: name, operand: lm, span: left.span_of() }
    } else if numeric_kind(rm) is None {
        BinaryVerdict::Invalid { operation: name, operand: rm, span: right.span_of() }
    } else if zero_divisor_name(op, constant_value(right)) is Some {
        BinaryVerdict::ZeroDivisor {
            operation: zero_divisor_name(op, constant_value(right))->0,
            span: right.span_of(),
        }
    } else if nl != nr {
        BinaryVerdict::Mismatch { expected: nl, expected_span: left.span_of(), found: nr, found_span: right.span_of() }
    } else {
        BinaryVerdict::Typed {
            result: nl,
            constrained: Some((nl, nr)),
            overflow: (op is Add || op is Subtract || op is Multiply) && is_integer_model(nl)
                && constant_overflow(op, left, right, nl),
        }
    }
}

/// Verdict for integer remainder operators.
pub open spec fn remainder_verdict(op: BinaryOp, left: Expr, right: Expr, lm: TypeModel, rm: TypeModel) -> BinaryVerdict {
    let name = binary_op_name(op);
    let nl = normalized(rm, left, lm);
    let nr = normalized(lm, right, rm);
    if !is_integer_model(lm) {
        BinaryVerdict::Invalid { operation: name, operand: lm, span: left.span_of() }
    } else if !is_integer_model(rm) {
        BinaryVerdict::Invalid { operation: name, operand: rm, span: right.span_of() }
    } else if zero_divisor_name(op, constant_value(right)) is Some {
        BinaryVerdict::ZeroDivisor {
            operation: zero_divisor_name(op, constant_value(right))->0,
            span: right.span_of(),
        }
    } else if nl != nr {
        BinaryVerdict::Mismatch { expected: nl, expected_span: left.span_of(), found: nr, found_span: right.span_of() }
    } else {
        BinaryVerdict::Typed { result: nl, constrained: Some((nl, nr)), overflow: false }
    }
}

/// Verdict for equality and identity operators.
pub open spec fn equality_verdict(op: BinaryOp, left: Expr, right: Expr, lm: TypeModel, rm: TypeModel) -> BinaryVerdict {
    let nl = normalized(rm, left, lm);
    let nr = normalized(lm, right, rm);
    if (op is Is || op is IsNot) && right is Identifier {
        BinaryVerdict::Typed { result: TypeModel::Boolean, constrained: None, overflow: false }
    } else if !compatible(nl, nr) {
        BinaryVerdict::Mismatch { expected: nl, expected_span: left.span_of(), found: nr, found_span: right.span_of() }
    } else {
        BinaryVerdict::Typed { result: TypeModel::Boolean, constrained: Some((nl, nr)), overflow: false }
    }
}

/// Verdict for ordering operators: integers of any width compare with each other.
pub open spec fn ordering_verdict(op: BinaryOp, left: Expr, right: Expr, lm: TypeModel, rm: TypeModel) -> BinaryVerdict {
    let name = binary_op_name(op);
    let nl = normalized(rm, left, lm);
    let nr = normalized(lm, right, rm);
    if numeric_kind(lm) is None {
        BinaryVerdict::Invalid { operation: name, operand: lm, span: left.span_of() }
    } else if numeric_kind(rm) is None {
        BinaryVerdict::Invalid { operation: name, operand: rm, span: right.span_of() }
    } else if !((is_integer_model(lm) && is_integer_model(rm)) || compatible(nl, nr)) && nl != nr {
        BinaryVerdict::Mismatch { expected: nl, expected_span: left.span_of(), found: nr, found_span: right.span_of() }
    } else {
        BinaryVerdict::Typed { result: TypeModel::Boolean, constrained: None, overflow: false }
    }
}

/// Verdict for boolean connectives.
pub open spec fn logical_verdict(op: BinaryOp, left: Expr, right: Expr, lm: TypeModel, rm: TypeModel) -> BinaryVerdict {
    let name = binary_op_name(op);
    if lm != TypeModel::Boolean {
        BinaryVerdict::Invalid { operation: name, operand: lm, span: left.span_of() }
    } else if rm != TypeModel::Boolean {
        BinaryVerdict::Invalid { operation: name, operand: rm, span: right.span_of() }
    } else {
        BinaryVerdict::Typed { result: TypeModel::Boolean, constrained: None, overflow: false }
    }
}

/// Verdict for bitwise operators: operand types are compared without literal coercion.
pub open spec fn bitwise_verdict(op: BinaryOp, left: Expr, right: Expr, lm: TypeModel, rm: TypeModel) -> BinaryVerdict {
    let name = binary_op_name(op);
    if !is_integer_model(lm) {
        BinaryVerdict::Invalid { operation: name, operand: lm, span: left.span_of() }
    } else if !is_integer_model(rm) {
        BinaryVerdict::Invalid { operation: name, operand: rm, span: right.span_of() }
    } else if lm != rm {
        BinaryVerdict::Mismatch { expected: lm, expected_span: left.span_of(), found: rm, found_span: right.span_of() }
    } else {
        BinaryVerdict::Typed { result: lm, constrained: Some((lm, rm)), overflow: false }
    }
}

/// Verdict for shift operators: the result has the left operand's type.
pub open spec fn shift_verdict(op: BinaryOp, left: Expr, right: Expr, lm: TypeModel, rm: TypeModel) -> BinaryVerdict {
    let name = binary_op_name(op);
    if !is_integer_model(lm) {
        BinaryVerdict::Invalid { operation: name, operand: lm, span: left.span_of() }
    } else if !is_integer_model(rm) {
        BinaryVerdict::Invalid { operation: name, operand: rm, span: right.span_of() }
    } else if shift_violation(op, lm, right) is Some {
        let v = shift_violation(op, lm, right)->0;
        BinaryVerdict::BadShift { reason: v.0, count: v.1, width: v.2, span: right.span_of() }
    } else {
        BinaryVerdict::Typed { result: lm, constrained: None, overflow: false }
    }
}

/// How `left op right` is typed when its operands have types `lm` and `rm`.
pub open spec fn binary_verdict(
    op: BinaryOp,
    left: Expr,
    right: Expr,
    lm: TypeModel,
    rm: TypeModel,
    span: Span,
) -> BinaryVerdict {
    if (op is Is || op is IsNot) && left is Identifier && right is Identifier {
        BinaryVerdict::Typed { result: TypeModel::Boolean, constrained: None, overflow: false }
    } else if is_arithmetic_op(op) {
        arithmetic_verdict(op, left, right, lm, rm)
    } else if is_remainder_op(op) {
        remainder_verdict(op, left, right, lm, rm)
    } else if is_equality_op(op) {
        equality_verdict(op, left, right, lm, rm)
    } else if is_ordering_op(op) {
        ordering_verdict(op, left, right, lm, rm)
    } else if is_logical_op(op) {
        logical_verdict(op, left, right, lm, rm)
    } else if is_bitwise_op(op) {
        bitwise_verdict(op, left, right, lm, rm)
    } else if is_shift_op(op) {
        shift_verdict(op, left, right, lm, rm)
    } else {
        BinaryVerdict::Invalid { operation: binary_op_name(op), operand: lm, span }
    }
}

/// What typing a binary expression produced: its type, the equality constraint it adds
/// to inference, and the warning it raises.
#[derive(Debug)]
pub struct BinaryTyping {
    /// Type of the whole expression.
    pub result: CoreType,
    /// Equality constraint between the operand types, where one is recorded.
    pub constraint: Option<TypeConstraint>,
    /// Constant-overflow warning, where one is raised.
    pub warning: Option<Warning>,
}

/// The warning is the constant-overflow warning for `op` at type `m` over `span`.
pub open spec fn is_overflow_warning(w: Warning, op: BinaryOp, m: TypeModel, span: Span) -> bool {
    w matches Warning::ArithmeticOverflow { operation, type_label, span: s, suppression_annotation }
        && operation@ == binary_op_name(op) && type_label@ == display(m) && s == diagnostic_span_of(span)
        && suppression_annotation is None
}

/// The constraint is the equality of types `a` and `b` with the operands' spans.
pub open spec fn is_operand_equality(c: TypeConstraint, a: TypeModel, b: TypeModel, left: Expr, right: Expr) -> bool {
    c matches TypeConstraint::Equality { left: l, right: r, left_span, right_span } && model_of(l) == a
        && model_of(r) == b && left_span == Some(left.span_of()) && right_span == Some(right.span_of())
}

/// The result of typing a binary expression agrees with a verdict.
pub open spec fn realizes(
    r: Result<BinaryTyping, TypeError>,
    v: BinaryVerdict,
    op: BinaryOp,
    left: Expr,
    right: Expr,
    span: Span,
) -> bool {
    match v {
        BinaryVerdict::Typed { result, constrained, overflow } => r matches Ok(t) && model_of(t.result)
            == result && (match constrained {
            None => t.constraint is None,
            Some(p) => t.constraint matches Some(c) && is_operand_equality(c, p.0, p.1, left, right),
        }) && (t.warning is Some <==> overflow) && (t.warning matches Some(w) ==> is_overflow_warning(
            w,
            op,
            result,
            span,
        )),
        BinaryVerdict::Invalid { operation, operand, span: s } => r matches Err(e) && is_invalid_operation(
            e,
            operation,
            operand,
            s,
        ),
        BinaryVerdict::ZeroDivisor { operation, span: s } => r matches Err(e)
            && e matches TypeError::DivisionByZero { operation: o, span: d } && o@ == operation && d
            == diagnostic_span_of(s),
        BinaryVerdict::Mismatch { expected, expected_span, found, found_span } => r matches Err(e)
            && is_type_mismatch(e, expected, Some(expected_span), found, found_span),
        BinaryVerdict::BadShift { reason, count, width, span: s } => r matches Err(e) && is_invalid_shift(
            e,
            reason,
            count,
            width,
            s,
        ),
    }
}

/// Reject compile-time constant zero divisors for division-like operators.
pub fn ensure_non_zero_divisor(operator: &BinaryOp, right: &Expr) -> (r: Result<(), TypeError>)
    ensures
        r is Ok <==> zero_divisor_name(*operator, constant_value(*right)) is None,
        r matches Err(e) ==> e matches TypeError::DivisionByZero { operation, span } && operation@
            == zero_divisor_name(*operator, constant_value(*right))->0 && span == diagnostic_span_of(
            right.span_of(),
        ),
{
    match zero_divisor_operation_name(operator, right) {
        None => Ok(()),
        Some(operation) => Err(
            TypeError::DivisionByZero {
                operation: String::from_str(operation),
                span: TypeError::span_from_span(right.span()),
            },
        ),
    }
}

/// Operand type after coercing a literal on that side to the other side's type.
fn normalize_operand(other: &CoreType, e: &Expr, own: &CoreType) -> (r: CoreType)
    ensures
        model_of(r) == normalized(model_of(*other), *e, model_of(*own)),
{
    match coerce_literal_to_expected(other, e, own) {
        Some(t) => t,
        None => own.duplicate(),
    }
}

/// A typed outcome with no constraint and no warning.
fn plain_typing(result: CoreType) -> (r: BinaryTyping)
    ensures
        r.result == result,
        r.constraint is None,
        r.warning is None,
{
    BinaryTyping { result, constraint: None, warning: None }
}

/// Typing of arithmetic operators.
fn type_arithmetic(
    left: &Expr,
    operator: &BinaryOp,
    right: &Expr,
    span: Span,
    left_type: &CoreType,
    right_type: &CoreType,
) -> (r: Result<BinaryTyping, TypeError>)
    requires
        is_arithmetic_op(*operator),
    ensures
        realizes(
            r,
            arithmetic_verdict(*operator, *left, *right, model_of(*left_type), model_of(*right_type)),
            *operator,
            *left,
            *right,
            span,
        ),
{
    let op_name = binary_operation_name(operator);
    if is_string_type(left_type) && is_string_type(right_type) {
        return Ok(plain_typing(CoreType::String));
    }
    if let Err(e) = ensure_numeric_type(left_type, left.span(), op_name) {
        return Err(e);
    }
    if let Err(e) = ensure_numeric_type(right_type, right.span(), op_name) {
        return Err(e);
    }
    if let Err(e) = ensure_non_zero_divisor(operator, right) {
        return Err(e);
    }
    let normalized_left_type = normalize_operand(right_type, left, left_type);
    let normalized_right_type = normalize_operand(left_type, right, right_type);
    if let Err(e) = ensure_same_type(&normalized_left_type, left.span(), &normalized_right_type, right.span()) {
        return Err(e);
    }
    let result_type = normalized_left_type.duplicate();
    let warning = if matches!(*operator, BinaryOp::Add | BinaryOp::Subtract | BinaryOp::Multiply)
        && is_integer_type(&result_type) {
        constant_integer_overflow_warning(operator, left, right, &result_type, span)
    } else {
        None
    };
    let constraint = TypeConstraint::equality(
        normalized_left_type,
        normalized_right_type,
        Some(left.span()),
        Some(right.span()),
    );
    Ok(BinaryTyping { result: result_type, constraint: Some(constraint), warning })
}

/// Typing of integer remainder operators.
fn type_remainder(
    left: &Expr,
    operator: &BinaryOp,
    right: &Expr,
    left_type: &CoreType,
    right_type: &CoreType,
    Ghost(span): Ghost<Span>,
) -> (r: Result<BinaryTyping, TypeError>)
    requires
        is_remainder_op(*operator),
    ensures
        realizes(
            r,
            remainder_verdict(*operator, *left, *right, model_of(*left_type), model_of(*right_type)),
            *operator,
            *left,
            *right,
            span,
        ),
{
    let op_name = binary_operation_name(operator);
    if let Err(e) = ensure_integer_type(left_type, left.span(), op_name) {
        return Err(e);
    }
    if let Err(e) = ensure_integer_type(right_type, right.span(), op_name) {
        return Err(e);
    }
    if let Err(e) = ensure_non_zero_divisor(operator, right) {
        return Err(e);
    }
    let normalized_left_type = normalize_operand(right_type, left, left_type);
    let normalized_right_type = normalize_operand(left_type, right, right_type);
    if let Err(e) = ensure_same_type(&normalized_left_type, left.span(), &normalized_right_type, right.span()) {
        return Err(e);
    }
    let result_type = normalized_left_type.duplicate();
    let constraint = TypeConstraint::equality(
        normalized_left_type,
        normalized_right_type,
        Some(left.span()),
        Some(right.span()),
    );
    Ok(BinaryTyping { result: result_type, constraint: Some(constraint), warning: None })
}

/// Typing of equality and identity operators.
fn type_equality(
    left: &Expr,
    operator: &BinaryOp,
    right: &Expr,
    left_type: &CoreType,
    right_type: &CoreType,
    Ghost(span): Ghost<Span>,
) -> (r: Result<BinaryTyping, TypeError>)
    requires
        is_equality_op(*operator),
    ensures
        realizes(
            r,
            equality_verdict(*operator, *left, *right, model_of(*left_type), model_of(*right_type)),
            *operator,
            *left,
            *right,
            span,
        ),
{
    if matches!(*operator, BinaryOp::Is | BinaryOp::IsNot) && matches!(right, Expr::Identifier { .. }) {
        return Ok(plain_typing(CoreType::Boolean));
    }
    let normalized_left_type = normalize_operand(right_type, left, left_type);
    let normalized_right_type = normalize_operand(left_type, right, right_type);
    if !types_compatible(&normalized_left_type, &normalized_right_type) {
        return Err(
            type_mismatch_error(&normalized_left_type, Some(left.span()), &normalized_right_type, right.span()),
        );
    }
    let constraint = TypeConstraint::equality(
        normalized_left_type,
        normalized_right_type,
        Some(left.span()),
        Some(right.span()),
    );
    Ok(BinaryTyping { result: CoreType::Boolean, constraint: Some(constraint), warning: None })
}

/// Typing of ordering operators.
fn type_ordering(
    left: &Expr,
    operator: &BinaryOp,
    right: &Expr,
    left_type: &CoreType,
    right_type: &CoreType,
    Ghost(span): Ghost<Span>,
) -> (r: Result<BinaryTyping, TypeError>)
    requires
        is_ordering_op(*operator),
    ensures
        realizes(
            r,
            ordering_verdict(*operator, *left, *right, model_of(*left_type), model_of(*right_type)),
            *operator,
            *left,
            *right,
            span,
        ),
{
    let op_name = binary_operation_name(operator);
    if let Err(e) = ensure_numeric_type(left_type, left.span(), op_name) {
        return Err(e);
    }
    if let Err(e) = ensure_numeric_type(right_type, right.span(), op_name) {
        return Err(e);
    }
    let normalized_left_type = normalize_operand(right_type, left, left_type);
    let normalized_right_type = normalize_operand(left_type, right, right_type);
    if !((is_integer_type(left_type) && is_integer_type(right_type)) || types_compatible(
        &normalized_left_type,
        &normalized_right_type,
    )) {
        if let Err(e) = ensure_same_type(&normalized_left_type, left.span(), &normalized_right_type, right.span()) {
            return Err(e);
        }
    }
    Ok(plain_typing(CoreType::Boolean))
}

/// Typing of boolean connectives.
fn type_logical(
    left: &Expr,
    operator: &BinaryOp,
    right: &Expr,
    left_type: &CoreType,
    right_type: &CoreType,
    Ghost(span): Ghost<Span>,
) -> (r: Result<BinaryTyping, TypeError>)
    requires
        is_logical_op(*operator),
    ensures
        realizes(
            r,
            logical_verdict(*operator, *left, *right, model_of(*left_type), model_of(*right_type)),
            *operator,
            *left,
            *right,
            span,
        ),
{
    let op_name = binary_operation_name(operator);
    if let Err(e) = ensure_boolean_type(left_type, left.span(), op_name) {
        return Err(e);
    }
    if let Err(e) = ensure_boolean_type(right_type, right.span(), op_name) {
        return Err(e);
    }
    Ok(plain_typing(CoreType::Boolean))
}

/// Typing of bitwise operators.
fn type_bitwise(
    left: &Expr,
    operator: &BinaryOp,
    right: &Expr,
    left_type: &CoreType,
    right_type: &CoreType,
    Ghost(span): Ghost<Span>,
) -> (r: Result<BinaryTyping, TypeError>)
    requires
        is_bitwise_op(*operator),
    ensures
        realizes(
            r,
            bitwise_verdict(*operator, *left, *right, model_of(*left_type), model_of(*right_type)),
            *operator,
            *left,
            *right,
            span,
        ),
{
    let op_name = binary_operation_name(operator);
    if let Err(e) = ensure_integer_type(left_type, left.span(), op_name) {
        return Err(e);
    }
    if let Err(e) = ensure_integer_type(right_type, right.span(), op_name) {
        return Err(e);
    }
    if let Err(e) = ensure_same_type(left_type, left.span(), right_type, right.span()) {
        return Err(e);
    }
    let constraint = TypeConstraint::equality(
        left_type.duplicate(),
        right_type.duplicate(),
        Some(left.span()),
        Some(right.span()),
    );
    Ok(BinaryTyping { result: left_type.duplicate(), constraint: Some(constraint), warning: None })
}

/// Typing of shift operators.
fn type_shift(
    left: &Expr,
    operator: &BinaryOp,
    right: &Expr,
    left_type: &CoreType,
    right_type: &CoreType,
    Ghost(span): Ghost<Span>,
) -> (r: Result<BinaryTyping, TypeError>)
    requires
        is_shift_op(*operator),
    ensures
        realizes(
            r,
            shift_verdict(*operator, *left, *right, model_of(*left_type), model_of(*right_type)),
            *operator,
            *left,
            *right,
            span,
        ),
{
    let op_name = binary_operation_name(operator);
    if let Err(e) = ensure_integer_type(left_type, left.span(), op_name) {
        return Err(e);
    }
    if let Err(e) = ensure_integer_type(right_type, right.span(), op_name) {
        return Err(e);
    }
    if let Err(e) = validate_constant_shift_bounds(operator, left_type, right, right.span()) {
        return Err(e);
    }
    Ok(plain_typing(left_type.duplicate()))
}

/// Type a binary expression with id `expr_id` whose operands were typed as `left_type` and
/// `right_type`, first recording its arithmetic mode and folded constant in `metadata`,
/// enforcing each operator's domain: the result type, the equality constraint recorded
/// for inference, and the constant-overflow warning are returned together.
pub fn type_check_binary_expr(
    metadata: &mut ExprMetadata,
    expr_id: usize,
    left: &Expr,
    operator: &BinaryOp,
    right: &Expr,
    span: Span,
    left_type: &CoreType,
    right_type: &CoreType,
) -> (r: Result<BinaryTyping, TypeError>)
    ensures
        binary_metadata_recorded(
            old(metadata).modes(),
            old(metadata).constants(),
            final(metadata).modes(),
            final(metadata).constants(),
            expr_id,
            *operator,
            *left,
            *right,
        ),
        realizes(
            r,
            binary_verdict(*operator, *left, *right, model_of(*left_type), model_of(*right_type), span),
            *operator,
            *left,
            *right,
            span,
        ),
{
    record_binary_expr_metadata(metadata, expr_id, operator, left, right);
    if matches!(*operator, BinaryOp::Is | BinaryOp::IsNot) && matches!(left, Expr::Identifier { .. })
        && matches!(right, Expr::Identifier { .. }) {
        return Ok(plain_typing(CoreType::Boolean));
    }
    match *operator {
        BinaryOp::Add | BinaryOp::Subtract | BinaryOp::Multiply | BinaryOp::Divide | BinaryOp::DivEuclid
        | BinaryOp::Power => type_arithmetic(left, operator, right, span, left_type, right_type),
        BinaryOp::Modulo | BinaryOp::ModEuclid => type_remainder(
            left,
            operator,
            right,
            left_type,
            right_type,
            Ghost(span),
        ),
        BinaryOp::Equal | BinaryOp::NotEqual | BinaryOp::Is | BinaryOp::IsNot => type_equality(
            left,
            operator,
            right,
            left_type,
            right_type,
            Ghost(span),
        ),
        BinaryOp::Less | BinaryOp::LessEqual | BinaryOp::Greater | BinaryOp::GreaterEqual => type_ordering(
            left,
            operator,
            right,
            left_type,
            right_type,
            Ghost(span),
        ),
        BinaryOp::And | BinaryOp::Or | BinaryOp::Xor => type_logical(
            left,
            operator,
            right,
            left_type,
            right_type,
            Ghost(span),
        ),
        BinaryOp::BitAnd | BinaryOp::BitOr | BinaryOp::BitXor => type_bitwise(
            left,
            operator,
            right,
            left_type,
            right_type,
            Ghost(span),
        ),
        BinaryOp::BitShiftLeft | BinaryOp::BitShiftRight | BinaryOp::BitUnsignedShiftRight => type_shift(
            left,
            operator,
            right,
            left_type,
            right_type,
            Ghost(span),
        ),
        BinaryOp::Assign => Err(invalid_operation_error(binary_operation_name(operator), left_type, span)),
    }
}

/// Type of a unary expression whose operand has type `m`.
pub open spec fn unary_accepts(op: UnaryOp, m: TypeModel) -> bool {
    match op {
        UnaryOp::Negate | UnaryOp::Plus => numeric_kind(m) is Some,
        UnaryOp::Not => m == TypeModel::Boolean,
        UnaryOp::BitNot => is_integer_model(m),
    }
}

/// Type a unary expression whose operand was typed as `operand_type`: numeric negation and
/// plus keep a numeric type, `not` takes and gives a boolean, bitwise not keeps an integer type.
pub fn type_check_unary_expr(operator: &UnaryOp, operand: &Expr, operand_type: &CoreType) -> (r: Result<
    CoreType,
    TypeError,
>)
    ensures
        r is Ok <==> unary_accepts(*operator, model_of(*operand_type)),
        r matches Ok(t) ==> model_of(t) == (if *operator is Not {
            TypeModel::Boolean
        } else {
            model_of(*operand_type)
        }),
        r matches Err(e) ==> is_invalid_operation(
            e,
            unary_op_name(*operator),
            model_of(*operand_type),
            operand.span_of(),
        ),
{
    let op_name = unary_operation_name(operator);
    match *operator {
        UnaryOp::Negate | UnaryOp::Plus => match ensure_numeric_type(operand_type, operand.span(), op_name) {
            Ok(()) => Ok(operand_type.duplicate()),
            Err(e) => Err(e),
        },
        UnaryOp::Not => match ensure_boolean_type(operand_type, operand.span(), op_name) {
            Ok(()) => Ok(CoreType::Boolean),
            Err(e) => Err(e),
        },
        UnaryOp::BitNot => match ensure_integer_type(operand_type, operand.span(), op_name) {
            Ok(()) => Ok(operand_type.duplicate()),
            Err(e) => Err(e),
        },
    }
}

/// Type an index expression `object[index]` whose operands were typed as `object_type`
/// and `index_type`: the index must be an integer and the object an array, whose
/// element type the expression has.
pub fn type_check_index_expr(index: &Expr, span: Span, object_type: &CoreType, index_type: &CoreType) -> (r: Result<
    CoreType,
    TypeError,
>)
    ensures
        !is_integer_model(model_of(*index_type)) ==> (r matches Err(e) && is_invalid_operation(
            e,
            "indexing"@,
            model_of(*index_type),
            index.span_of(),
        )),
        is_integer_model(model_of(*index_type)) ==> match model_of(*object_type) {
            TypeModel::Array(element) => r matches Ok(t) && model_of(t) == *element,
            m => r matches Err(e) && is_invalid_operation(e, "indexing"@, m, span),
        },
{
    proof {
        reveal_strlit("indexing");
    }
    if let Err(e) = ensure_integer_type(index_type, index.span(), "indexing") {
        return Err(e);
    }
    match object_type {
        CoreType::Array(element_type) => Ok((**element_type).duplicate()),
        other => Err(invalid_operation_error("indexing", other, span)),
    }
}

/// Type an indexed assignment target `object[index]` whose object was typed as
/// `object_type` and index as `index_type`: arrays give their element type, strings give
/// strings.
pub fn type_check_index_assignment_target(
    index: &Expr,
    span: Span,
    object_type: &CoreType,
    index_type: &CoreType,
) -> (r: Result<CoreType, TypeError>)
    ensures
        !is_integer_model(model_of(*index_type)) ==> (r matches Err(e) && is_invalid_operation(
            e,
            "indexing"@,
            model_of(*index_type),
            index.span_of(),
        )),
        is_integer_model(model_of(*index_type)) ==> match model_of(*object_type) {
            TypeModel::Array(element) => r matches Ok(t) && model_of(t) == *element,
            TypeModel::String => r matches Ok(t) && model_of(t) == TypeModel::String,
            m => r matches Err(e) && is_invalid_operation(e, "index assignment"@, m, span),
        },
{
    proof {
        reveal_strlit("indexing");
        reveal_strlit("index assignment");
    }
    if let Err(e) = ensure_integer_type(index_type, index.span(), "indexing") {
        return Err(e);
    }
    match object_type {
        CoreType::Array(element_type) => Ok((**element_type).duplicate()),
        CoreType::String => Ok(CoreType::String),
        other => Err(invalid_operation_error("index assignment", other, span)),
    }
}

/// Type an explicit cast of a value of `source_type` to the annotated `target_type`: the
/// target must be known and the cast valid; a valid but narrowing cast adds a warning.
pub fn type_check_cast_expr(
    warnings: &mut Vec<Warning>,
    source_type: &CoreType,
    target_type: &Type,
    span: Span,
) -> (r: Result<CoreType, TypeError>)
    ensures
        match annotation_model(*target_type) {
            Err(f) => converted(r, Err(f)) && final(warnings)@ == old(warnings)@,
            Ok(m) => {
                &&& valid_cast(model_of(*source_type), m) ==> (r matches Ok(t) && model_of(t) == m)
                &&& !valid_cast(model_of(*source_type), m) ==> (r matches Err(e) && (e matches TypeError::InvalidCast {
                    from_type: f,
                    to_type: t,
                    span: s,
                } && f@ == display(model_of(*source_type)) && t@ == display(m) && s == diagnostic_span_of(span))
                    && final(warnings)@ == old(warnings)@)
                &&& valid_cast(model_of(*source_type), m) && safe_cast(model_of(*source_type), m) ==> final(warnings)@
                    == old(warnings)@
                &&& valid_cast(model_of(*source_type), m) && !safe_cast(model_of(*source_type), m) ==> ({
                    &&& final(warnings)@.len() == old(warnings)@.len() + 1
                    &&& final(warnings)@.drop_last() == old(warnings)@
                    &&& final(warnings)@.last() matches Warning::UnsafeCast {
                        from_type: f,
                        to_type: t,
                        span: s,
                        suppression_annotation,
                    } && f@ == display(model_of(*source_type)) && t@ == display(m) && s == diagnostic_span_of(span)
                        && suppression_annotation is None
                })
            },
        },
{
    let target_core_type = match ast_type_to_core_type(target_type) {
        Ok(t) => t,
        Err(e) => {
            return Err(e);
        },
    };
    match validate_cast_with_warnings(warnings, source_type, &target_core_type, span) {
        Ok(()) => Ok(target_core_type),
        Err(e) => Err(e),
    }
}

} // verus!
