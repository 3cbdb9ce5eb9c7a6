use opalescent_types::arithmetic::{
    extract_integer_constant, fold_integer_binary_expr, fold_integer_binary_values, mode_for_binary_operator,
    mode_for_intrinsic_member, ArithmeticMode,
};
use opalescent_types::ast::{BinaryOp, Expr, LiteralValue, UnaryOp};
use opalescent_types::checker_helpers::{
    check_shift_bounds, constant_integer_overflow_warning, integer_arithmetic_overflows, integer_bounds, is_safe_cast,
    is_valid_cast, zero_divisor_operation_name,
};
use opalescent_types::errors::{TypeError, Warning};
use opalescent_types::token::{Position, Span};
use opalescent_types::types::CoreType;

fn span() -> Span {
    Span::single(Position::start())
}

fn lit(v: i64) -> Expr {
    Expr::Literal { value: LiteralValue::Integer(v), span: span() }
}

#[test]
fn binary_operators_use_default_mode() {
    assert_eq!(mode_for_binary_operator(&BinaryOp::Add), Some(ArithmeticMode::Default));
    assert_eq!(mode_for_binary_operator(&BinaryOp::BitUnsignedShiftRight), Some(ArithmeticMode::Default));
    assert_eq!(mode_for_binary_operator(&BinaryOp::Less), None);
}

#[test]
fn intrinsic_member_modes_follow_naming() {
    assert_eq!(mode_for_intrinsic_member("checked_add"), Some(ArithmeticMode::Checked));
    assert_eq!(mode_for_intrinsic_member("wrapping_mul"), Some(ArithmeticMode::Wrapping));
    assert_eq!(mode_for_intrinsic_member("shift_masked"), Some(ArithmeticMode::Wrapping));
    assert_eq!(mode_for_intrinsic_member("masked_shl"), Some(ArithmeticMode::Wrapping));
    assert_eq!(mode_for_intrinsic_member("saturating_sub"), Some(ArithmeticMode::Saturating));
    assert_eq!(mode_for_intrinsic_member("length"), None);
}

#[test]
fn folding_truncates_toward_zero() {
    assert_eq!(fold_integer_binary_values(&BinaryOp::Divide, -7, 2), Some(-3));
    assert_eq!(fold_integer_binary_values(&BinaryOp::Modulo, -7, 2), Some(-1));
    assert_eq!(fold_integer_binary_values(&BinaryOp::Divide, 7, 0), None);
    assert_eq!(fold_integer_binary_values(&BinaryOp::Add, i128::MAX, 1), None);
    assert_eq!(fold_integer_binary_values(&BinaryOp::Multiply, 6, 7), Some(42));
    assert_eq!(fold_integer_binary_values(&BinaryOp::Less, 1, 2), None);
}

#[test]
fn constants_fold_through_wrappers() {
    let negated = Expr::Unary { operator: UnaryOp::Negate, operand: Box::new(lit(5)), span: span() };
    let product = Expr::Binary {
        left: Box::new(Expr::Parenthesized { expr: Box::new(negated), span: span() }),
        operator: BinaryOp::Multiply,
        right: Box::new(lit(3)),
        span: span(),
    };
    assert_eq!(extract_integer_constant(&product), Some(-15));
    assert_eq!(fold_integer_binary_expr(&BinaryOp::Subtract, &product, &lit(1)), Some(-16));
    let name = Expr::Identifier { name: "x".to_owned(), span: span() };
    assert_eq!(extract_integer_constant(&name), None);
}

#[test]
fn overflow_is_judged_against_destination_bounds() {
    assert_eq!(integer_bounds(&CoreType::Int8), Some((-128, 127)));
    assert!(integer_arithmetic_overflows(&BinaryOp::Add, &CoreType::Int8, 100, 28));
    assert!(!integer_arithmetic_overflows(&BinaryOp::Add, &CoreType::Int8, 100, 27));
    assert!(!integer_arithmetic_overflows(&BinaryOp::Divide, &CoreType::Int8, 1000, 1));
    let warning = constant_integer_overflow_warning(&BinaryOp::Multiply, &lit(300), &lit(300), &CoreType::UInt16, span());
    match warning {
        Some(Warning::ArithmeticOverflow { operation, type_label, suppression_annotation, .. }) => {
            assert_eq!(operation, "multiplication");
            assert_eq!(type_label, "uint16");
            assert!(suppression_annotation.is_none());
        }
        other => panic!("expected overflow warning, got {other:?}"),
    }
    assert!(constant_integer_overflow_warning(&BinaryOp::Add, &lit(1), &lit(2), &CoreType::UInt8, span()).is_none());
}

#[test]
fn zero_divisors_and_shift_counts() {
    assert_eq!(zero_divisor_operation_name(&BinaryOp::Divide, &lit(0)), Some("division"));
    assert_eq!(zero_divisor_operation_name(&BinaryOp::Modulo, &lit(0)), Some("modulo"));
    assert_eq!(zero_divisor_operation_name(&BinaryOp::Divide, &lit(2)), None);
    match check_shift_bounds(&BinaryOp::BitShiftLeft, &CoreType::Int32, &lit(32), span()) {
        Some(TypeError::InvalidShiftCount { reason, shift_count, bit_width, .. }) => {
            assert_eq!(reason, "out of range");
            assert_eq!(shift_count, 32);
            assert_eq!(bit_width, 32);
        }
        other => panic!("unexpected {other:?}"),
    }
    assert!(check_shift_bounds(&BinaryOp::BitShiftLeft, &CoreType::Int32, &lit(31), span()).is_none());
}

#[test]
fn cast_rules() {
    assert!(is_safe_cast(&CoreType::Int8, &CoreType::Int32));
    assert!(!is_safe_cast(&CoreType::Int32, &CoreType::Int8));
    assert!(is_valid_cast(&CoreType::Int32, &CoreType::Int8));
    assert!(!is_valid_cast(&CoreType::String, &CoreType::Int8));
}
