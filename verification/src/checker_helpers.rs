//! Numeric classification, cast rules and constant-expression diagnostics.

use vstd::prelude::*;
use crate::arithmetic::{
    constant_value, extract_integer_constant, fold_integer_binary_values, fold_values, opt_int,
};
use crate::ast::{BinaryOp, Expr, LiteralValue, UnaryOp};
use crate::errors::{diagnostic_span_of, TypeError, Warning};
use crate::token::Span;
use crate::types::{display, model_of, CoreType, NumericKind, TypeModel};

verus! {

/// Model of the canonical type of a literal.
pub open spec fn literal_type(v: LiteralValue) -> TypeModel {
    match v {
        LiteralValue::Integer(_) => TypeModel::Int64,
        LiteralValue::Float => TypeModel::Float64,
        LiteralValue::String(_) => TypeModel::String,
        LiteralValue::Boolean(_) => TypeModel::Boolean,
        LiteralValue::Void => TypeModel::Unit,
    }
}

/// Determine the canonical core type for a literal value.
pub fn literal_to_core_type(value: &LiteralValue) -> (r: CoreType)
    ensures
        model_of(r) == literal_type(*value),
{
    match value {
        LiteralValue::Integer(_) => CoreType::Int64,
        LiteralValue::Float => CoreType::Float64,
        LiteralValue::String(_) => CoreType::String,
        LiteralValue::Boolean(_) => CoreType::Boolean,
        LiteralValue::Void => CoreType::Unit,
    }
}

/// Numeric family and bit width of a primitive numeric type.
pub open spec fn numeric_width(m: TypeModel) -> Option<(NumericKind, u8)> {
    match m {
        TypeModel::Int8 => Some((NumericKind::SignedInt, 8u8)),
        TypeModel::Int16 => Some((NumericKind::SignedInt, 16u8)),
        TypeModel::Int32 => Some((NumericKind::SignedInt, 32u8)),
        TypeModel::Int64 => Some((NumericKind::SignedInt, 64u8)),
        TypeModel::UInt8 => Some((NumericKind::UnsignedInt, 8u8)),
        TypeModel::UInt16 => Some((NumericKind::UnsignedInt, 16u8)),
        TypeModel::UInt32 => Some((NumericKind::UnsignedInt, 32u8)),
        TypeModel::UInt64 => Some((NumericKind::UnsignedInt, 64u8)),
        TypeModel::Float32 => Some((NumericKind::Float, 32u8)),
        TypeModel::Float64 => Some((NumericKind::Float, 64u8)),
        _ => None,
    }
}

/// Numeric family of a type model.
pub open spec fn numeric_kind(m: TypeModel) -> Option<NumericKind> {
    match numeric_width(m) {
        Some(p) => Some(p.0),
        None => None,
    }
}

/// The model is a signed or unsigned integer primitive.
pub open spec fn is_integer_model(m: TypeModel) -> bool {
    numeric_kind(m) == Some(NumericKind::SignedInt) || numeric_kind(m) == Some(
        NumericKind::UnsignedInt,
    )
}

/// The model is a floating point primitive.
pub open spec fn is_float_model(m: TypeModel) -> bool {
    numeric_kind(m) == Some(NumericKind::Float)
}

/// Categorize a core type into a numeric family when applicable.
pub fn classify_numeric(core_type: &CoreType) -> (r: Option<NumericKind>)
    ensures
        r == numeric_kind(model_of(*core_type)),
{
    match core_type {
        CoreType::Int8 | CoreType::Int16 | CoreType::Int32 | CoreType::Int64 => Some(
            NumericKind::SignedInt,
        ),
        CoreType::UInt8 | CoreType::UInt16 | CoreType::UInt32 | CoreType::UInt64 => Some(
            NumericKind::UnsignedInt,
        ),
        CoreType::Float32 | CoreType::Float64 => Some(NumericKind::Float),
        _ => None,
    }
}

/// Check whether the provided type belongs to any numeric family.
pub fn is_numeric_type(core_type: &CoreType) -> (r: bool)
    ensures
        r == (numeric_kind(model_of(*core_type)) is Some),
{
    classify_numeric(core_type).is_some()
}

/// Check whether the provided type is an integer (signed or unsigned).
pub fn is_integer_type(core_type: &CoreType) -> (r: bool)
    ensures
        r == is_integer_model(model_of(*core_type)),
{
    match classify_numeric(core_type) {
        Some(NumericKind::SignedInt) | Some(NumericKind::UnsignedInt) => true,
        _ => false,
    }
}

/// Check whether the provided type is a floating point primitive.
pub fn is_float_type(core_type: &CoreType) -> (r: bool)
    ensures
        r == is_float_model(model_of(*core_type)),
{
    matches!(core_type, CoreType::Float32 | CoreType::Float64)
}

/// Check whether the provided type is the boolean primitive.
pub fn is_boolean_type(core_type: &CoreType) -> (r: bool)
    ensures
        r == (model_of(*core_type) == TypeModel::Boolean),
{
    matches!(core_type, CoreType::Boolean)
}

/// Check whether the provided type is the string primitive.
pub fn is_string_type(core_type: &CoreType) -> (r: bool)
    ensures
        r == (model_of(*core_type) == TypeModel::String),
{
    matches!(core_type, CoreType::String)
}

/// The error describes an invalid `operation` on a type with model `m` at `span`.
pub open spec fn is_invalid_operation(e: TypeError, operation: Seq<char>, m: TypeModel, span: Span) -> bool {
    e matches TypeError::InvalidOperation { operation: o, type_label: t, span: s } && o@ == operation
        && t@ == display(m) && s == diagnostic_span_of(span)
}

/// The error is a type mismatch between the two models.
pub open spec fn is_type_mismatch(
    e: TypeError,
    expected: TypeModel,
    expected_span: Option<Span>,
    found: TypeModel,
    found_span: Span,
) -> bool {
    e matches TypeError::TypeMismatch {
        expected: x,
        found: f,
        found_span: fs,
        expected_span: es,
    } && x@ == display(expected) && f@ == display(found) && fs == diagnostic_span_of(found_span)
        && es == (match expected_span {
        Some(s) => Some(diagnostic_span_of(s)),
        None => None,
    })
}

/// Construct a type error describing an invalid operation on a type.
pub fn invalid_operation_error(operation: &str, core_type: &CoreType, span: Span) -> (r: TypeError)
    ensures
        is_invalid_operation(r, operation@, model_of(*core_type), span),
{
    TypeError::InvalidOperation {
        operation: String::from_str(operation),
        type_label: core_type.display_name(),
        span: TypeError::span_from_span(span),
    }
}

/// Construct a type mismatch diagnostic.
pub fn type_mismatch_error(
    expected: &CoreType,
    expected_span: Option<Span>,
    found: &CoreType,
    found_span: Span,
) -> (r: TypeError)
    ensures
        is_type_mismatch(r, model_of(*expected), expected_span, model_of(*found), found_span),
{
    let es = match expected_span {
        Some(s) => Some(TypeError::span_from_span(s)),
        None => None,
    };
    TypeError::TypeMismatch {
        expected: expected.display_name(),
        found: found.display_name(),
        found_span: TypeError::span_from_span(found_span),
        expected_span: es,
    }
}

/// Type a literal-like expression takes on when coerced to `expected`.
pub open spec fn coerced_literal_type(expected: TypeModel, e: Expr, actual: TypeModel) -> Option<
    TypeModel,
> {
    match e {
        Expr::Literal { value: LiteralValue::Integer(_), .. } => if is_integer_model(expected)
            && is_integer_model(actual) {
            Some(expected)
        } else {
            None
        },
        Expr::Literal { value: LiteralValue::Float, .. } => if is_float_model(expected)
            && is_float_model(actual) {
            Some(expected)
        } else {
            None
        },
        Expr::Array { elements, .. } => if elements.len() == 0 && expected is Array {
            Some(expected)
        } else {
            None
        },
        _ => None,
    }
}

/// Model of an optional core type.
pub open spec fn opt_model(o: Option<CoreType>) -> Option<TypeModel> {
    match o {
        Some(t) => Some(model_of(t)),
        None => None,
    }
}

/// Attempt to coerce a literal expression's type to match an expected core type.
pub fn coerce_literal_to_expected(expected: &CoreType, expr: &Expr, actual: &CoreType) -> (r: Option<
    CoreType,
>)
    ensures
        opt_model(r) == coerced_literal_type(model_of(*expected), *expr, model_of(*actual)),
{
    match expr {
        Expr::Literal { value, .. } => match value {
            LiteralValue::Integer(_) => {
                if is_integer_type(expected) && is_integer_type(actual) {
                    Some(expected.duplicate())
                } else {
                    None
                }
            },
            LiteralValue::Float => {
                if is_float_type(expected) && is_float_type(actual) {
                    Some(expected.duplicate())
                } else {
                    None
                }
            },
            _ => None,
        },
        Expr::Array { elements, .. } => {
            if elements.len() == 0 && matches!(expected, CoreType::Array(_)) {
                Some(expected.duplicate())
            } else {
                None
            }
        },
        _ => None,
    }
}

/// Ensure that two resolved operand types are identical.
pub fn ensure_same_type(expected: &CoreType, expected_span: Span, actual: &CoreType, actual_span: Span) -> (r:
    Result<(), TypeError>)
    ensures
        r is Ok <==> model_of(*expected) == model_of(*actual),
        r matches Err(e) ==> is_type_mismatch(
            e,
            model_of(*expected),
            Some(expected_span),
            model_of(*actual),
            actual_span,
        ),
{
    if expected.equals(actual) {
        Ok(())
    } else {
        Err(type_mismatch_error(expected, Some(expected_span), actual, actual_span))
    }
}

/// Validate that a type is numeric before a numeric operation.
pub fn ensure_numeric_type(core_type: &CoreType, span: Span, operation: &str) -> (r: Result<(), TypeError>)
    ensures
        r is Ok <==> numeric_kind(model_of(*core_type)) is Some,
        r matches Err(e) ==> is_invalid_operation(e, operation@, model_of(*core_type), span),
{
    if is_numeric_type(core_type) {
        Ok(())
    } else {
        Err(invalid_operation_error(operation, core_type, span))
    }
}

/// Ensure that the provided type is an integer before an integer-only operation.
pub fn ensure_integer_type(core_type: &CoreType, span: Span, operation: &str) -> (r: Result<(), TypeError>)
    ensures
        r is Ok <==> is_integer_model(model_of(*core_type)),
        r matches Err(e) ==> is_invalid_operation(e, operation@, model_of(*core_type), span),
{
    if is_integer_type(core_type) {
        Ok(())
    } else {
        Err(invalid_operation_error(operation, core_type, span))
    }
}

/// Guard boolean-only operations.
pub fn ensure_boolean_type(core_type: &CoreType, span: Span, operation: &str) -> (r: Result<(), TypeError>)
    ensures
        r is Ok <==> model_of(*core_type) == TypeModel::Boolean,
        r matches Err(e) ==> is_invalid_operation(e, operation@, model_of(*core_type), span),
{
    if is_boolean_type(core_type) {
        Ok(())
    } else {
        Err(invalid_operation_error(operation, core_type, span))
    }
}

/// Human-readable description of a binary operator.
pub open spec fn binary_op_name(op: BinaryOp) -> Seq<char> {
    match op {
        BinaryOp::Add => "addition"@,
        BinaryOp::Subtract => "subtraction"@,
        BinaryOp::Multiply => "multiplication"@,
        BinaryOp::Divide => "division"@,
        BinaryOp::Modulo => "modulo"@,
        BinaryOp::DivEuclid => "euclidean division"@,
        BinaryOp::ModEuclid => "euclidean modulo"@,
        BinaryOp::Power => "exponentiation"@,
        BinaryOp::Equal => "equality comparison"@,
        BinaryOp::NotEqual => "inequality comparison"@,
        BinaryOp::Less => "less-than comparison"@,
        BinaryOp::LessEqual => "less-or-equal comparison"@,
        BinaryOp::Greater => "greater-than comparison"@,
        BinaryOp::GreaterEqual => "greater-or-equal comparison"@,
        BinaryOp::Is => "identity comparison"@,
        BinaryOp::IsNot => "negative identity comparison"@,
        BinaryOp::And => "logical and"@,
        BinaryOp::Or => "logical or"@,
        BinaryOp::Xor => "logical xor"@,
        BinaryOp::BitAnd => "bitwise and"@,
        BinaryOp::BitOr => "bitwise or"@,
        BinaryOp::BitXor => "bitwise xor"@,
        BinaryOp::BitShiftLeft => "left shift"@,
        BinaryOp::BitShiftRight => "right shift"@,
        BinaryOp::BitUnsignedShiftRight => "unsigned right shift"@,
        BinaryOp::Assign => "assignment"@,
    }
}

/// Human-readable description of a binary operator.
pub fn binary_operation_name(operator: &BinaryOp) -> (r: &'static str)
    ensures
        r@ == binary_op_name(*operator),
{
    match *operator {
        BinaryOp::Add => "addition",
        BinaryOp::Subtract => "subtraction",
        BinaryOp::Multiply => "multiplication",
        BinaryOp::Divide => "division",
        BinaryOp::Modulo => "modulo",
        BinaryOp::DivEuclid => "euclidean division",
        BinaryOp::ModEuclid => "euclidean modulo",
        BinaryOp::Power => "exponentiation",
        BinaryOp::Equal => "equality comparison",
        BinaryOp::NotEqual => "inequality comparison",
        BinaryOp::Less => "less-than comparison",
        BinaryOp::LessEqual => "less-or-equal comparison",
        BinaryOp::Greater => "greater-than comparison",
        BinaryOp::GreaterEqual => "greater-or-equal comparison",
        BinaryOp::Is => "identity comparison",
        BinaryOp::IsNot => "negative identity comparison",
        BinaryOp::And => "logical and",
        BinaryOp::Or => "logical or",
        BinaryOp::Xor => "logical xor",
        BinaryOp::BitAnd => "bitwise and",
        BinaryOp::BitOr => "bitwise or",
        BinaryOp::BitXor => "bitwise xor",
        BinaryOp::BitShiftLeft => "left shift",
        BinaryOp::BitShiftRight => "right shift",
        BinaryOp::BitUnsignedShiftRight => "unsigned right shift",
        BinaryOp::Assign => "assignment",
    }
}

/// Human-readable description of a unary operator.
pub open spec fn unary_op_name(op: UnaryOp) -> Seq<char> {
    match op {
        UnaryOp::Negate => "numeric negation"@,
        UnaryOp::Not => "logical not"@,
        UnaryOp::BitNot => "bitwise not"@,
        UnaryOp::Plus => "unary plus"@,
    }
}

/// Human-readable description of a unary operator.
pub fn unary_operation_name(operator: &UnaryOp) -> (r: &'static str)
    ensures
        r@ == unary_op_name(*operator),
{
    match *operator {
        UnaryOp::Negate => "numeric negation",
        UnaryOp::Not => "logical not",
        UnaryOp::BitNot => "bitwise not",
        UnaryOp::Plus => "unary plus",
    }
}

/// Bit width of an integer primitive.
pub open spec fn int_width(m: TypeModel) -> Option<u32> {
    match m {
        TypeModel::Int8 | TypeModel::UInt8 => Some(8u32),
        TypeModel::Int16 | TypeModel::UInt16 => Some(16u32),
        TypeModel::Int32 | TypeModel::UInt32 => Some(32u32),
        TypeModel::Int64 | TypeModel::UInt64 => Some(64u32),
        _ => None,
    }
}

/// Return the bit width for concrete integer core types.
pub fn integer_bit_width(core_type: &CoreType) -> (r: Option<u32>)
    ensures
        r == int_width(model_of(*core_type)),
{
    match core_type {
        CoreType::Int8 | CoreType::UInt8 => Some(8),
        CoreType::Int16 | CoreType::UInt16 => Some(16),
        CoreType::Int32 | CoreType::UInt32 => Some(32),
        CoreType::Int64 | CoreType::UInt64 => Some(64),
        _ => None,
    }
}

/// Inclusive value range of an integer primitive.
pub open spec fn int_bounds(m: TypeModel) -> Option<(int, int)> {
    match m {
        TypeModel::Int8 => Some((-128, 127)),
        TypeModel::Int16 => Some((-0x8000, 0x7FFF)),
        TypeModel::Int32 => Some((-0x8000_0000, 0x7FFF_FFFF)),
        TypeModel::Int64 => Some((-0x8000_0000_0000_0000, 0x7FFF_FFFF_FFFF_FFFF)),
        TypeModel::UInt8 => Some((0, 255)),
        TypeModel::UInt16 => Some((0, 0xFFFF)),
        TypeModel::UInt32 => Some((0, 0xFFFF_FFFF)),
        TypeModel::UInt64 => Some((0, 0xFFFF_FFFF_FFFF_FFFF)),
        _ => None,
    }
}

/// Integer view of an optional pair of bounds.
pub open spec fn opt_pair(o: Option<(i128, i128)>) -> Option<(int, int)> {
    match o {
        Some(p) => Some((p.0 as int, p.1 as int)),
        None => None,
    }
}

/// Return inclusive min/max bounds for concrete integer core types.
pub fn integer_bounds(core_type: &CoreType) -> (r: Option<(i128, i128)>)
    ensures
        opt_pair(r) == int_bounds(model_of(*core_type)),
{
    match core_type {
        CoreType::Int8 => Some((-128, 127)),
        CoreType::Int16 => Some((-0x8000, 0x7FFF)),
        CoreType::Int32 => Some((-0x8000_0000, 0x7FFF_FFFF)),
        CoreType::Int64 => Some((-0x8000_0000_0000_0000, 0x7FFF_FFFF_FFFF_FFFF)),
        CoreType::UInt8 => Some((0, 255)),
        CoreType::UInt16 => Some((0, 0xFFFF)),
        CoreType::UInt32 => Some((0, 0xFFFF_FFFF)),
        CoreType::UInt64 => Some((0, 0xFFFF_FFFF_FFFF_FFFF)),
        _ => None,
    }
}

/// Constant `l op r` overflows the destination integer type (only `+`, `-`, `*` are
/// considered; a result beyond 128 bits always counts as overflow).
pub open spec fn arithmetic_overflows(op: BinaryOp, m: TypeModel, l: int, r: int) -> bool {
    if !(op is Add || op is Subtract || op is Multiply) {
        false
    } else {
        match fold_values(op, l, r) {
            None => true,
            Some(v) => match int_bounds(m) {
                None => false,
                Some(b) => v < b.0 || v > b.1,
            },
        }
    }
}

/// Fold compile-time integer binary arithmetic.
pub fn fold_constant_binary_op(operator: &BinaryOp, left: i128, right: i128) -> (r: Option<i128>)
    ensures
        opt_int(r) == fold_values(*operator, left as int, right as int),
{
    fold_integer_binary_values(operator, left, right)
}

/// Check whether integer constant arithmetic exceeds destination type bounds.
pub fn integer_arithmetic_overflows(operator: &BinaryOp, operand_type: &CoreType, left: i128, right: i128) -> (r:
    bool)
    ensures
        r == arithmetic_overflows(*operator, model_of(*operand_type), left as int, right as int),
{
    if !matches!(*operator, BinaryOp::Add | BinaryOp::Subtract | BinaryOp::Multiply) {
        return false;
    }
    let computed = fold_constant_binary_op(operator, left, right);
    let result = match computed {
        Some(v) => v,
        None => {
            return true;
        },
    };
    let bounds = integer_bounds(operand_type);
    match bounds {
        Some((min_value, max_value)) => result < min_value || result > max_value,
        None => false,
    }
}

/// Build an arithmetic-overflow warning for constant integer binary expressions.
pub fn constant_integer_overflow_warning(
    operator: &BinaryOp,
    left_expr: &Expr,
    right_expr: &Expr,
    result_type: &CoreType,
    span: Span,
) -> (r: Option<Warning>)
    ensures
        r is Some <==> (match (constant_value(*left_expr), constant_value(*right_expr)) {
            (Some(l), Some(rv)) => arithmetic_overflows(*operator, model_of(*result_type), l, rv),
            _ => false,
        }),
        r matches Some(w) ==> (w matches Warning::ArithmeticOverflow { operation, type_label, span: s, suppression_annotation }
            && operation@ == binary_op_name(*operator) && type_label@ == display(model_of(*result_type))
            && s == diagnostic_span_of(span) && suppression_annotation is None),
{
    let left_value = match extract_integer_constant(left_expr) {
        Some(v) => v,
        None => {
            return None;
        },
    };
    let right_value = match extract_integer_constant(right_expr) {
        Some(v) => v,
        None => {
            return None;
        },
    };
    if !integer_arithmetic_overflows(operator, result_type, left_value, right_value) {
        return None;
    }
    let operation = match *operator {
        BinaryOp::Add => "addition",
        BinaryOp::Subtract => "subtraction",
        BinaryOp::Multiply => "multiplication",
        _ => {
            return None;
        },
    };
    Some(
        Warning::ArithmeticOverflow {
            operation: String::from_str(operation),
            type_label: result_type.display_name(),
            span: TypeError::span_from_span(span),
            suppression_annotation: None,
        },
    )
}

/// Operation name when a division-like operator has a constant zero divisor.
pub open spec fn zero_divisor_name(op: BinaryOp, divisor: Option<int>) -> Option<Seq<char>> {
    if divisor == Some(0int) {
        match op {
            BinaryOp::Divide => Some("division"@),
            BinaryOp::Modulo => Some("modulo"@),
            _ => None,
        }
    } else {
        None
    }
}

/// Identify division-like operators with a compile-time constant zero divisor.
pub fn zero_divisor_operation_name(operator: &BinaryOp, right_expr: &Expr) -> (r: Option<&'static str>)
    ensures
        (match r {
            Some(s) => Some(s@),
            None => None,
        }) == zero_divisor_name(*operator, constant_value(*right_expr)),
{
    let divisor = match extract_integer_constant(right_expr) {
        Some(v) => v,
        None => {
            return None;
        },
    };
    if divisor != 0 {
        return None;
    }
    match *operator {
        BinaryOp::Divide => Some("division"),
        BinaryOp::Modulo => Some("modulo"),
        _ => None,
    }
}

/// The error is an invalid shift count diagnostic with the given metadata.
pub open spec fn is_invalid_shift(e: TypeError, reason: Seq<char>, count: int, width: u32, span: Span) -> bool {
    e matches TypeError::InvalidShiftCount {
        reason: r,
        count_value: c,
        shift_count: sc,
        bit_width: w,
        span: s,
    } && r@ == reason && c == count && sc == count && w == width && s == diagnostic_span_of(span)
}

/// Constant shift count problem: the reason, the count and the operand bit width.
pub open spec fn shift_violation(op: BinaryOp, left: TypeModel, right: Expr) -> Option<(Seq<char>, int, u32)> {
    if !(op is BitShiftLeft || op is BitShiftRight || op is BitUnsignedShiftRight) {
        None
    } else {
        match (constant_value(right), int_width(left)) {
            (Some(c), Some(w)) => if c < 0 {
                Some(("negative"@, c, w))
            } else if c >= w {
                Some(("out of range"@, c, w))
            } else {
                None
            },
            _ => None,
        }
    }
}

/// Build a compile-time invalid-shift diagnostic.
pub fn invalid_shift_count_error(reason: &str, shift_count: i128, bit_width: u32, span: Span) -> (r: TypeError)
    ensures
        is_invalid_shift(r, reason@, shift_count as int, bit_width, span),
{
    TypeError::InvalidShiftCount {
        reason: String::from_str(reason),
        count_value: shift_count,
        shift_count,
        bit_width,
        span: TypeError::span_from_span(span),
    }
}

/// Validate constant shift counts for shift operators.
pub fn check_shift_bounds(operator: &BinaryOp, left_type: &CoreType, right_expr: &Expr, shift_count_span: Span) -> (r:
    Option<TypeError>)
    ensures
        r is Some <==> shift_violation(*operator, model_of(*left_type), *right_expr) is Some,
        r matches Some(e) ==> ({
            let v = shift_violation(*operator, model_of(*left_type), *right_expr)->0;
            is_invalid_shift(e, v.0, v.1, v.2, shift_count_span)
        }),
{
    if !matches!(
        *operator,
        BinaryOp::BitShiftLeft | BinaryOp::BitShiftRight | BinaryOp::BitUnsignedShiftRight
    ) {
        return None;
    }
    let shift_count = match extract_integer_constant(right_expr) {
        Some(v) => v,
        None => {
            return None;
        },
    };
    let bit_width = match integer_bit_width(left_type) {
        Some(w) => w,
        None => {
            return None;
        },
    };
    if shift_count < 0 {
        return Some(invalid_shift_count_error("negative", shift_count, bit_width, shift_count_span));
    }
    if shift_count > 0xFFFF_FFFF {
        return Some(
            invalid_shift_count_error("out of range", shift_count, bit_width, shift_count_span),
        );
    }
    let shift_count_u32 = shift_count as u32;
    if shift_count_u32 >= bit_width {
        return Some(
            invalid_shift_count_error("out of range", shift_count, bit_width, shift_count_span),
        );
    }
    None
}

/// Validate compile-time shift count bounds for constant integer shifts.
pub fn validate_constant_shift_bounds(
    operator: &BinaryOp,
    left_type: &CoreType,
    right_expr: &Expr,
    shift_count_span: Span,
) -> (r: Result<(), TypeError>)
    ensures
        r is Ok <==> shift_violation(*operator, model_of(*left_type), *right_expr) is None,
        r matches Err(e) ==> ({
            let v = shift_violation(*operator, model_of(*left_type), *right_expr)->0;
            is_invalid_shift(e, v.0, v.1, v.2, shift_count_span)
        }),
{
    match check_shift_bounds(operator, left_type, right_expr, shift_count_span) {
        Some(error) => Err(error),
        None => Ok(()),
    }
}

/// Determine the numeric family and bit width for cast validation.
pub fn numeric_bit_width(core_type: &CoreType) -> (r: Option<(NumericKind, u8)>)
    ensures
        r == numeric_width(model_of(*core_type)),
{
    match core_type {
        CoreType::Int8 => Some((NumericKind::SignedInt, 8)),
        CoreType::Int16 => Some((NumericKind::SignedInt, 16)),
        CoreType::Int32 => Some((NumericKind::SignedInt, 32)),
        CoreType::Int64 => Some((NumericKind::SignedInt, 64)),
        CoreType::UInt8 => Some((NumericKind::UnsignedInt, 8)),
        CoreType::UInt16 => Some((NumericKind::UnsignedInt, 16)),
        CoreType::UInt32 => Some((NumericKind::UnsignedInt, 32)),
        CoreType::UInt64 => Some((NumericKind::UnsignedInt, 64)),
        CoreType::Float32 => Some((NumericKind::Float, 32)),
        CoreType::Float64 => Some((NumericKind::Float, 64)),
        _ => None,
    }
}

/// A cast is safe: identity, widening within a numeric family, or integer to float.
pub open spec fn safe_cast(from: TypeModel, to: TypeModel) -> bool {
    if from == to {
        true
    } else {
        match (numeric_width(from), numeric_width(to)) {
            (Some(f), Some(t)) => (f.0 == t.0 && f.1 <= t.1) || (f.0 != NumericKind::Float && t.0
                == NumericKind::Float),
            _ => false,
        }
    }
}

/// A cast is allowed at all: identity or any numeric-to-numeric conversion.
pub open spec fn valid_cast(from: TypeModel, to: TypeModel) -> bool {
    from == to || (numeric_width(from) is Some && numeric_width(to) is Some)
}

/// Determine whether a cast from one type to another is safe (widening).
pub fn is_safe_cast(from: &CoreType, to: &CoreType) -> (r: bool)
    ensures
        r == safe_cast(model_of(*from), model_of(*to)),
{
    if from.equals(to) {
        return true;
    }
    let (from_kind, from_bits) = match numeric_bit_width(from) {
        Some(p) => p,
        None => {
            return false;
        },
    };
    let (to_kind, to_bits) = match numeric_bit_width(to) {
        Some(p) => p,
        None => {
            return false;
        },
    };
    if from_kind == to_kind && from_bits <= to_bits {
        return true;
    }
    if matches!(from_kind, NumericKind::SignedInt | NumericKind::UnsignedInt) && matches!(
        to_kind,
        NumericKind::Float
    ) {
        return true;
    }
    false
}

/// Check if a cast is valid (allowed but potentially unsafe).
pub fn is_valid_cast(from: &CoreType, to: &CoreType) -> (r: bool)
    ensures
        r == valid_cast(model_of(*from), model_of(*to)),
{
    if from.equals(to) {
        return true;
    }
    if numeric_bit_width(from).is_none() {
        return false;
    }
    if numeric_bit_width(to).is_none() {
        return false;
    }
    true
}


/// A signed integer type.
pub open spec fn is_signed_integer(m: TypeModel) -> bool {
    m is Int8 || m is Int16 || m is Int32 || m is Int64
}

/// An unsigned integer type.
pub open spec fn is_unsigned_integer(m: TypeModel) -> bool {
    m is UInt8 || m is UInt16 || m is UInt32 || m is UInt64
}

/// A floating-point type.
pub open spec fn is_floating_type(m: TypeModel) -> bool {
    m is Float32 || m is Float64
}

/// The values an integer type holds, by the bounds of the Rust type of the same width.
pub open spec fn holds_value(m: TypeModel, v: int) -> bool {
    match m {
        TypeModel::Int8 => i8::MIN <= v <= i8::MAX,
        TypeModel::Int16 => i16::MIN <= v <= i16::MAX,
        TypeModel::Int32 => i32::MIN <= v <= i32::MAX,
        TypeModel::Int64 => i64::MIN <= v <= i64::MAX,
        TypeModel::UInt8 => 0 <= v <= u8::MAX,
        TypeModel::UInt16 => 0 <= v <= u16::MAX,
        TypeModel::UInt32 => 0 <= v <= u32::MAX,
        TypeModel::UInt64 => 0 <= v <= u64::MAX,
        _ => false,
    }
}

/// Smallest and largest value of an integer type.
pub open spec fn least_value(m: TypeModel) -> int {
    match m {
        TypeModel::Int8 => i8::MIN as int,
        TypeModel::Int16 => i16::MIN as int,
        TypeModel::Int32 => i32::MIN as int,
        TypeModel::Int64 => i64::MIN as int,
        _ => 0,
    }
}

/// Largest value of an integer type.
pub open spec fn greatest_value(m: TypeModel) -> int {
    match m {
        TypeModel::Int8 => i8::MAX as int,
        TypeModel::Int16 => i16::MAX as int,
        TypeModel::Int32 => i32::MAX as int,
        TypeModel::Int64 => i64::MAX as int,
        TypeModel::UInt8 => u8::MAX as int,
        TypeModel::UInt16 => u16::MAX as int,
        TypeModel::UInt32 => u32::MAX as int,
        TypeModel::UInt64 => u64::MAX as int,
        _ => 0,
    }
}

/// Which casts are safe: a type to itself always; never between signed and unsigned
/// integers; never from a float to an integer; always from an integer to a float; within
/// the signed integers, or within the unsigned integers, exactly when every value of the
/// source is a value of the target; `float32` to `float64` but not back; and never
/// between two different types of which one is not numeric.
pub proof fn law_safe_casts(a: TypeModel, b: TypeModel)
    ensures
        safe_cast(a, a),
        is_signed_integer(a) && is_unsigned_integer(b) ==> !safe_cast(a, b),
        is_unsigned_integer(a) && is_signed_integer(b) ==> !safe_cast(a, b),
        is_floating_type(a) && (is_signed_integer(b) || is_unsigned_integer(b)) ==> !safe_cast(a, b),
        (is_signed_integer(a) || is_unsigned_integer(a)) && is_floating_type(b) ==> safe_cast(a, b),
        (is_signed_integer(a) && is_signed_integer(b)) || (is_unsigned_integer(a) && is_unsigned_integer(b)) ==> (
        safe_cast(a, b) <==> (least_value(b) <= least_value(a) && greatest_value(a) <= greatest_value(b))),
        safe_cast(TypeModel::Float32, TypeModel::Float64),
        !safe_cast(TypeModel::Float64, TypeModel::Float32),
        a != b && !(is_signed_integer(a) || is_unsigned_integer(a) || is_floating_type(a)) ==> !safe_cast(a, b),
        a != b && !(is_signed_integer(b) || is_unsigned_integer(b) || is_floating_type(b)) ==> !safe_cast(a, b),
{
}

/// The result of `+`, `-` or `*` on unbounded integers.
pub open spec fn exact_result(op: BinaryOp, l: int, r: int) -> int {
    match op {
        BinaryOp::Add => l + r,
        BinaryOp::Subtract => l - r,
        _ => l * r,
    }
}

/// Constant `+`, `-` and `*` on 128-bit operands overflow an integer type exactly when
/// the exact result is not a value of that type; no other operator is checked.
pub proof fn law_constant_overflow_is_unrepresentable(op: BinaryOp, m: TypeModel, l: int, r: int)
    requires
        is_signed_integer(m) || is_unsigned_integer(m),
        i128::MIN <= l <= i128::MAX,
        i128::MIN <= r <= i128::MAX,
    ensures
        (op is Add || op is Subtract || op is Multiply) ==> (arithmetic_overflows(op, m, l, r) <==> !holds_value(
            m,
            exact_result(op, l, r),
        )),
        !(op is Add || op is Subtract || op is Multiply) ==> !arithmetic_overflows(op, m, l, r),
{
}

} // verus!
