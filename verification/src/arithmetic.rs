//! Arithmetic-mode metadata and compile-time integer constant folding.

use vstd::prelude::*;
use crate::ast::{BinaryOp, Expr, LiteralValue, UnaryOp};
use crate::text::{ends_with, has_prefix, has_suffix, starts_with};

verus! {

/// Arithmetic overflow behavior metadata attached to typed expressions.
#[derive(Debug, Clone, Copy, PartialEq, Eq, Hash, Structural)]
pub enum ArithmeticMode {
    /// Language default behavior (debug trap, release wrap).
    Default,
    /// Checked arithmetic returns an optional result.
    Checked,
    /// Wrapping arithmetic never traps and wraps by type width.
    Wrapping,
    /// Saturating arithmetic clamps to numeric bounds.
    Saturating,
}

/// Operators whose intrinsic form carries the default arithmetic mode.
pub open spec fn is_default_mode_operator(op: BinaryOp) -> bool {
    match op {
        BinaryOp::Add | BinaryOp::Subtract | BinaryOp::Multiply | BinaryOp::Divide
        | BinaryOp::Modulo | BinaryOp::BitShiftLeft | BinaryOp::BitShiftRight
        | BinaryOp::BitUnsignedShiftRight => true,
        _ => false,
    }
}

/// Resolve arithmetic mode for intrinsic binary operators.
pub fn mode_for_binary_operator(operator: &BinaryOp) -> (r: Option<ArithmeticMode>)
    ensures
        r == (if is_default_mode_operator(*operator) { Some(ArithmeticMode::Default) } else { None }),
{
    match *operator {
        BinaryOp::Add | BinaryOp::Subtract | BinaryOp::Multiply | BinaryOp::Divide
        | BinaryOp::Modulo | BinaryOp::BitShiftLeft | BinaryOp::BitShiftRight
        | BinaryOp::BitUnsignedShiftRight => Some(ArithmeticMode::Default),
        _ => None,
    }
}

/// Arithmetic mode selected by a member-call intrinsic's naming convention.
pub open spec fn intrinsic_member_mode(name: Seq<char>) -> Option<ArithmeticMode> {
    if has_prefix(name, "checked_"@) {
        Some(ArithmeticMode::Checked)
    } else if has_prefix(name, "wrapping_"@) || has_prefix(name, "masked_"@) || has_suffix(
        name,
        "_masked"@,
    ) {
        Some(ArithmeticMode::Wrapping)
    } else if has_prefix(name, "saturating_"@) {
        Some(ArithmeticMode::Saturating)
    } else {
        None
    }
}

/// Resolve arithmetic mode for member-call intrinsics by naming convention.
pub fn mode_for_intrinsic_member(member_name: &str) -> (r: Option<ArithmeticMode>)
    ensures
        r == intrinsic_member_mode(member_name@),
{
    if starts_with(member_name, "checked_") {
        return Some(ArithmeticMode::Checked);
    }
    if starts_with(member_name, "wrapping_") {
        return Some(ArithmeticMode::Wrapping);
    }
    if starts_with(member_name, "masked_") {
        return Some(ArithmeticMode::Wrapping);
    }
    if ends_with(member_name, "_masked") {
        return Some(ArithmeticMode::Wrapping);
    }
    if starts_with(member_name, "saturating_") {
        return Some(ArithmeticMode::Saturating);
    }
    None
}

/// `x` fits in a signed 128-bit integer.
pub open spec fn fits_i128(x: int) -> bool {
    i128::MIN <= x <= i128::MAX
}

/// Quotient rounded toward zero.
pub open spec fn trunc_div(x: int, d: int) -> int {
    if x == 0 {
        0
    } else if x > 0 && d > 0 {
        x / d
    } else if x < 0 && d < 0 {
        (x * -1) / (d * -1)
    } else if x < 0 {
        ((x * -1) / d) * -1
    } else {
        (x / (d * -1)) * -1
    }
}

/// Remainder whose sign follows the dividend.
pub open spec fn trunc_rem(x: int, d: int) -> int {
    if x == 0 {
        0
    } else if x > 0 && d > 0 {
        x % d
    } else if x < 0 && d < 0 {
        ((x * -1) % (d * -1)) * -1
    } else if x < 0 {
        ((x * -1) % d) * -1
    } else {
        x % (d * -1)
    }
}

/// Keep a mathematical result only when it fits in 128 bits.
pub open spec fn checked_result(x: int) -> Option<int> {
    if fits_i128(x) { Some(x) } else { None }
}

/// Checked 128-bit folding of one binary operator on constant operands.
pub open spec fn fold_values(op: BinaryOp, l: int, r: int) -> Option<int> {
    match op {
        BinaryOp::Add => checked_result(l + r),
        BinaryOp::Subtract => checked_result(l - r),
        BinaryOp::Multiply => checked_result(l * r),
        BinaryOp::Divide => if r == 0 { None } else { checked_result(trunc_div(l, r)) },
        BinaryOp::Modulo => if r == 0 || (l == i128::MIN && r == -1) {
            None
        } else {
            checked_result(trunc_rem(l, r))
        },
        _ => None,
    }
}

/// Integer value of an optional 128-bit result.
pub open spec fn opt_int(o: Option<i128>) -> Option<int> {
    match o {
        Some(v) => Some(v as int),
        None => None,
    }
}

/// Fold integer binary values using checked arithmetic semantics.
pub fn fold_integer_binary_values(operator: &BinaryOp, left_value: i128, right_value: i128) -> (r:
    Option<i128>)
    ensures
        opt_int(r) == fold_values(*operator, left_value as int, right_value as int),
{
    match *operator {
        BinaryOp::Add => left_value.checked_add(right_value),
        BinaryOp::Subtract => left_value.checked_sub(right_value),
        BinaryOp::Multiply => left_value.checked_mul(right_value),
        BinaryOp::Divide => left_value.checked_div(right_value),
        BinaryOp::Modulo => left_value.checked_rem(right_value),
        _ => None,
    }
}

/// Compile-time integer value of a literal-like expression, when it has one.
pub open spec fn constant_value(e: Expr) -> Option<int>
    decreases e,
{
    match e {
        Expr::Literal { value: LiteralValue::Integer(v), .. } => Some(v as int),
        Expr::Parenthesized { expr, .. } => constant_value(*expr),
        Expr::Cast { expr, .. } => constant_value(*expr),
        Expr::Unary { operator: UnaryOp::Negate, operand, .. } => match constant_value(*operand) {
            Some(v) => checked_result(-v),
            None => None,
        },
        Expr::Unary { operator: UnaryOp::Plus, operand, .. } => constant_value(*operand),
        Expr::Binary { left, operator, right, .. } => match (
            constant_value(*left),
            constant_value(*right),
        ) {
            (Some(l), Some(r)) => fold_values(operator, l, r),
            _ => None,
        },
        _ => None,
    }
}

/// Checked negation of a 128-bit value.
fn negate_checked(v: i128) -> (r: Option<i128>)
    ensures
        opt_int(r) == checked_result(-(v as int)),
{
    if v == i128::MIN {
        None
    } else {
        Some(-v)
    }
}

/// Extract a signed integer constant from literal-like expression forms.
pub fn extract_integer_constant(expr: &Expr) -> (r: Option<i128>)
    ensures
        opt_int(r) == constant_value(*expr),
    decreases expr,
{
    match expr {
        Expr::Literal { value: LiteralValue::Integer(value), .. } => Some(*value as i128),
        Expr::Parenthesized { expr: inner, .. } => extract_integer_constant(inner),
        Expr::Cast { expr: inner, .. } => extract_integer_constant(inner),
        Expr::Unary { operator: UnaryOp::Negate, operand, .. } => {
            match extract_integer_constant(operand) {
                Some(v) => negate_checked(v),
                None => None,
            }
        },
        Expr::Unary { operator: UnaryOp::Plus, operand, .. } => extract_integer_constant(operand),
        Expr::Binary { left, operator, right, .. } => {
            let left_value = extract_integer_constant(left);
            match left_value {
                Some(l) => {
                    let right_value = extract_integer_constant(right);
                    match right_value {
                        Some(r) => fold_integer_binary_values(operator, l, r),
                        None => None,
                    }
                },
                None => None,
            }
        },
        _ => None,
    }
}

/// Fold integer binary expression operands when both sides are constants.
pub fn fold_integer_binary_expr(operator: &BinaryOp, left_expr: &Expr, right_expr: &Expr) -> (r:
    Option<i128>)
    ensures
        opt_int(r) == (match (constant_value(*left_expr), constant_value(*right_expr)) {
            (Some(l), Some(rv)) => fold_values(*operator, l, rv),
            _ => None,
        }),
{
    let left_value = extract_integer_constant(left_expr);
    match left_value {
        Some(l) => {
            let right_value = extract_integer_constant(right_expr);
            match right_value {
                Some(r) => fold_integer_binary_values(operator, l, r),
                None => None,
            }
        },
        None => None,
    }
}

} // verus!
