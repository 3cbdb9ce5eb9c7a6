use opalescent_types::ast::{BinaryOp, Expr, LiteralValue, Type, UnaryOp};
use opalescent_types::constraints::TypeConstraint;
use opalescent_types::arithmetic::ArithmeticMode;
use opalescent_types::errors::{TypeError, Warning};
use opalescent_types::expression_metadata::ExprMetadata;
use opalescent_types::operators::{
    ensure_non_zero_divisor, type_check_binary_expr, type_check_cast_expr, type_check_index_assignment_target,
    type_check_index_expr, type_check_unary_expr,
};
use opalescent_types::token::{Position, Span};
use opalescent_types::types::CoreType;

fn span() -> Span {
    Span::single(Position::start())
}

fn ident(name: &str) -> Expr {
    Expr::Identifier { name: name.to_string(), span: span() }
}

fn int_lit(v: i64) -> Expr {
    Expr::Literal { value: LiteralValue::Integer(v), span: span() }
}

#[test]
fn addition_of_same_integer_types_records_equality() {
    let typed = type_check_binary_expr(&mut ExprMetadata::new(), 0, &ident("a"), &BinaryOp::Add, &ident("b"), span(), &CoreType::Int32, &CoreType::Int32)
        .expect("int32 + int32 is well typed");
    assert!(matches!(typed.result, CoreType::Int32));
    assert!(matches!(
        typed.constraint,
        Some(TypeConstraint::Equality { left: CoreType::Int32, right: CoreType::Int32, .. })
    ));
    assert!(typed.warning.is_none());
}

#[test]
fn string_concatenation_gives_string() {
    let typed = type_check_binary_expr(&mut ExprMetadata::new(), 0, &ident("a"), &BinaryOp::Add, &ident("b"), span(), &CoreType::String, &CoreType::String)
        .expect("string + string is concatenation");
    assert!(matches!(typed.result, CoreType::String));
    assert!(typed.constraint.is_none());
}

#[test]
fn integer_literal_adopts_the_other_operand_type() {
    let typed = type_check_binary_expr(&mut ExprMetadata::new(), 0, &ident("a"), &BinaryOp::Multiply, &int_lit(3), span(), &CoreType::UInt8, &CoreType::Int64)
        .expect("literal coerces to uint8");
    assert!(matches!(typed.result, CoreType::UInt8));
}

#[test]
fn mixed_integer_widths_are_rejected_for_arithmetic() {
    let err = type_check_binary_expr(&mut ExprMetadata::new(), 0, &ident("a"), &BinaryOp::Subtract, &ident("b"), span(), &CoreType::Int32, &CoreType::Int64)
        .unwrap_err();
    match err {
        TypeError::TypeMismatch { expected, found, .. } => {
            assert_eq!(expected, "int32");
            assert_eq!(found, "int64");
        }
        other => panic!("unexpected error {other:?}"),
    }
}

#[test]
fn arithmetic_on_boolean_is_invalid() {
    let err = type_check_binary_expr(&mut ExprMetadata::new(), 0, &ident("a"), &BinaryOp::Add, &ident("b"), span(), &CoreType::Boolean, &CoreType::Int32)
        .unwrap_err();
    assert!(matches!(err, TypeError::InvalidOperation { ref operation, .. } if operation == "addition"));
}

#[test]
fn constant_zero_divisor_is_rejected() {
    let err = type_check_binary_expr(&mut ExprMetadata::new(), 0, &ident("a"), &BinaryOp::Divide, &int_lit(0), span(), &CoreType::Int32, &CoreType::Int64)
        .unwrap_err();
    assert!(matches!(err, TypeError::DivisionByZero { ref operation, .. } if operation == "division"));
    let err = type_check_binary_expr(&mut ExprMetadata::new(), 0, &ident("a"), &BinaryOp::Modulo, &int_lit(0), span(), &CoreType::Int32, &CoreType::Int64)
        .unwrap_err();
    assert!(matches!(err, TypeError::DivisionByZero { ref operation, .. } if operation == "modulo"));
    assert!(ensure_non_zero_divisor(&BinaryOp::Divide, &int_lit(2)).is_ok());
    assert!(ensure_non_zero_divisor(&BinaryOp::Add, &int_lit(0)).is_ok());
}

#[test]
fn constant_overflow_raises_a_warning() {
    let typed = type_check_binary_expr(&mut ExprMetadata::new(), 0, &int_lit(200), &BinaryOp::Add, &int_lit(100), span(), &CoreType::UInt8, &CoreType::UInt8)
        .expect("constant addition is typed");
    match typed.warning {
        Some(Warning::ArithmeticOverflow { operation, type_label, .. }) => {
            assert_eq!(operation, "addition");
            assert_eq!(type_label, "uint8");
        }
        other => panic!("expected an overflow warning, got {other:?}"),
    }
}

#[test]
fn modulo_requires_integers() {
    let err = type_check_binary_expr(&mut ExprMetadata::new(), 0, &ident("a"), &BinaryOp::Modulo, &ident("b"), span(), &CoreType::Float64, &CoreType::Float64)
        .unwrap_err();
    assert!(matches!(err, TypeError::InvalidOperation { ref type_label, .. } if type_label == "float64"));
}

#[test]
fn comparisons_accept_mixed_integer_widths() {
    let typed = type_check_binary_expr(&mut ExprMetadata::new(), 0, &ident("a"), &BinaryOp::Less, &ident("b"), span(), &CoreType::Int8, &CoreType::UInt64)
        .expect("integers of any width compare");
    assert!(matches!(typed.result, CoreType::Boolean));
    let err = type_check_binary_expr(&mut ExprMetadata::new(), 0, &ident("a"), &BinaryOp::Less, &ident("b"), span(), &CoreType::Float32, &CoreType::Float64)
        .unwrap_err();
    assert!(matches!(err, TypeError::TypeMismatch { .. }));
}

#[test]
fn equality_requires_compatible_types() {
    let typed = type_check_binary_expr(&mut ExprMetadata::new(), 0, &ident("a"), &BinaryOp::Equal, &ident("b"), span(), &CoreType::String, &CoreType::String)
        .expect("strings compare");
    assert!(matches!(typed.result, CoreType::Boolean));
    assert!(typed.constraint.is_some());
    let err = type_check_binary_expr(&mut ExprMetadata::new(), 0, &ident("a"), &BinaryOp::NotEqual, &ident("b"), span(), &CoreType::String, &CoreType::Int32)
        .unwrap_err();
    assert!(matches!(err, TypeError::TypeMismatch { .. }));
}

#[test]
fn identity_against_a_name_is_always_boolean() {
    let typed = type_check_binary_expr(&mut ExprMetadata::new(), 0, &int_lit(1), &BinaryOp::Is, &ident("Thing"), span(), &CoreType::Int64, &CoreType::String)
        .expect("identity tests against names");
    assert!(matches!(typed.result, CoreType::Boolean));
    assert!(typed.constraint.is_none());
}

#[test]
fn logical_operators_require_booleans() {
    assert!(type_check_binary_expr(&mut ExprMetadata::new(), 0, &ident("a"), &BinaryOp::And, &ident("b"), span(), &CoreType::Boolean, &CoreType::Boolean).is_ok());
    let err = type_check_binary_expr(&mut ExprMetadata::new(), 0, &ident("a"), &BinaryOp::Or, &ident("b"), span(), &CoreType::Boolean, &CoreType::Int32)
        .unwrap_err();
    assert!(matches!(err, TypeError::InvalidOperation { ref type_label, .. } if type_label == "int32"));
}

#[test]
fn bitwise_operators_do_not_coerce_literals() {
    let err = type_check_binary_expr(&mut ExprMetadata::new(), 0, &ident("a"), &BinaryOp::BitAnd, &int_lit(1), span(), &CoreType::UInt8, &CoreType::Int64)
        .unwrap_err();
    assert!(matches!(err, TypeError::TypeMismatch { .. }));
}

#[test]
fn shifts_keep_the_left_type_and_check_constant_counts() {
    let typed = type_check_binary_expr(&mut ExprMetadata::new(), 0, &ident("a"), &BinaryOp::BitShiftLeft, &int_lit(3), span(), &CoreType::UInt16, &CoreType::Int64)
        .expect("shift by 3 is fine");
    assert!(matches!(typed.result, CoreType::UInt16));
    let err = type_check_binary_expr(&mut ExprMetadata::new(), 0, &ident("a"), &BinaryOp::BitShiftRight, &int_lit(16), span(), &CoreType::UInt16, &CoreType::Int64)
        .unwrap_err();
    assert!(matches!(err, TypeError::InvalidShiftCount { bit_width: 16, shift_count: 16, .. }));
}

#[test]
fn assignment_is_not_a_binary_value() {
    let err = type_check_binary_expr(&mut ExprMetadata::new(), 0, &ident("a"), &BinaryOp::Assign, &ident("b"), span(), &CoreType::Int32, &CoreType::Int32)
        .unwrap_err();
    assert!(matches!(err, TypeError::InvalidOperation { ref operation, .. } if operation == "assignment"));
}

#[test]
fn unary_operators_follow_their_domains() {
    assert!(matches!(type_check_unary_expr(&UnaryOp::Negate, &ident("x"), &CoreType::Float32), Ok(CoreType::Float32)));
    assert!(matches!(type_check_unary_expr(&UnaryOp::Not, &ident("x"), &CoreType::Boolean), Ok(CoreType::Boolean)));
    assert!(matches!(type_check_unary_expr(&UnaryOp::BitNot, &ident("x"), &CoreType::UInt32), Ok(CoreType::UInt32)));
    let err = type_check_unary_expr(&UnaryOp::BitNot, &ident("x"), &CoreType::Float64).unwrap_err();
    assert!(matches!(err, TypeError::InvalidOperation { ref operation, .. } if operation == "bitwise not"));
    assert!(type_check_unary_expr(&UnaryOp::Plus, &ident("x"), &CoreType::String).is_err());
}

#[test]
fn indexing_needs_an_integer_index_and_an_array() {
    let array = CoreType::Array(Box::new(CoreType::Boolean));
    assert!(matches!(type_check_index_expr(&int_lit(0), span(), &array, &CoreType::Int64), Ok(CoreType::Boolean)));
    let err = type_check_index_expr(&ident("i"), span(), &array, &CoreType::String).unwrap_err();
    assert!(matches!(err, TypeError::InvalidOperation { ref operation, ref type_label, .. }
        if operation == "indexing" && type_label == "string"));
    let err = type_check_index_expr(&int_lit(0), span(), &CoreType::String, &CoreType::Int64).unwrap_err();
    assert!(matches!(err, TypeError::InvalidOperation { ref operation, .. } if operation == "indexing"));
    assert!(matches!(
        type_check_index_assignment_target(&int_lit(0), span(), &CoreType::String, &CoreType::Int64),
        Ok(CoreType::String)
    ));
    let err = type_check_index_assignment_target(&int_lit(0), span(), &CoreType::Int32, &CoreType::Int64).unwrap_err();
    assert!(matches!(err, TypeError::InvalidOperation { ref operation, .. } if operation == "index assignment"));
}

#[test]
fn casts_follow_the_cast_rules() {
    let mut warnings = Vec::new();
    let widen = Type::Basic { name: "int64".to_string(), span: span() };
    assert!(matches!(type_check_cast_expr(&mut warnings, &CoreType::Int32, &widen, span()), Ok(CoreType::Int64)));
    assert!(warnings.is_empty());
    let narrow = Type::Basic { name: "int8".to_string(), span: span() };
    assert!(matches!(type_check_cast_expr(&mut warnings, &CoreType::Int32, &narrow, span()), Ok(CoreType::Int8)));
    assert!(matches!(warnings.last(), Some(Warning::UnsafeCast { .. })));
    let err = type_check_cast_expr(&mut warnings, &CoreType::String, &widen, span()).unwrap_err();
    assert!(matches!(err, TypeError::InvalidCast { .. }));
    let unknown = Type::Basic { name: "Mystery".to_string(), span: span() };
    assert!(matches!(
        type_check_cast_expr(&mut warnings, &CoreType::Int32, &unknown, span()),
        Err(TypeError::TypeNotFound { .. })
    ));
}

#[test]
fn division_by_literal_zero_records_the_mode_and_no_constant() {
    let mut metadata = ExprMetadata::new();
    let err = type_check_binary_expr(&mut metadata, 42, &int_lit(7), &BinaryOp::Divide, &int_lit(0), span(), &CoreType::Int64, &CoreType::Int64)
        .unwrap_err();
    assert!(matches!(err, TypeError::DivisionByZero { ref operation, .. } if operation == "division"));
    assert_eq!(metadata.arithmetic_mode_for_expr(42), Some(ArithmeticMode::Default));
    assert_eq!(metadata.constant_integer_for_expr(42), None);
}

#[test]
fn constant_operands_record_their_folded_value() {
    let mut metadata = ExprMetadata::new();
    type_check_binary_expr(&mut metadata, 5, &int_lit(6), &BinaryOp::Multiply, &int_lit(7), span(), &CoreType::Int64, &CoreType::Int64)
        .expect("typed");
    assert_eq!(metadata.constant_integer_for_expr(5), Some(42));
    type_check_binary_expr(&mut metadata, 6, &ident("a"), &BinaryOp::Less, &ident("b"), span(), &CoreType::Int64, &CoreType::Int64)
        .expect("typed");
    assert_eq!(metadata.arithmetic_mode_for_expr(6), None);
    metadata.clear_constant_integer_value(5);
    assert_eq!(metadata.constant_integer_for_expr(5), None);
}
