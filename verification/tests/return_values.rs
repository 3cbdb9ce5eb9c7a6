use opalescent_types::ast::{Expr, LiteralValue, ReturnValue};
use opalescent_types::constraints::TypeConstraint;
use opalescent_types::errors::TypeError;
use opalescent_types::return_labels::ReturnContexts;
use opalescent_types::return_values::{type_check_return, ResolvedReturn};
use opalescent_types::token::{Position, Span};
use opalescent_types::types::CoreType;

fn span() -> Span {
    Span::single(Position::start())
}

fn value(expr: Expr, label: Option<&str>) -> ReturnValue {
    ReturnValue { value: expr, label: label.map(|l| l.to_string()) }
}

fn ident(name: &str) -> Expr {
    Expr::Identifier { name: name.to_string(), span: span() }
}

fn int_lit(v: i64) -> Expr {
    Expr::Literal { value: LiteralValue::Integer(v), span: span() }
}

fn call() -> Expr {
    Expr::Call { callee: Box::new(ident("f")), args: Vec::new(), span: span() }
}

fn body() -> ReturnContexts {
    let mut contexts = ReturnContexts::new();
    contexts.begin_return_context();
    contexts
}

#[test]
fn return_outside_a_function_is_rejected() {
    let mut contexts = body();
    let mut constraints = Vec::new();
    let err = type_check_return(&mut contexts, &mut constraints, &[], &[], None, None, 0, span()).unwrap_err();
    assert!(matches!(err, TypeError::InvalidOperation { ref operation, .. } if operation == "return outside of function"));
}

#[test]
fn literal_value_is_reconciled_to_the_expected_type() {
    let mut contexts = body();
    let mut constraints = Vec::new();
    let values = vec![value(int_lit(5), None)];
    let expected = [CoreType::Int32];
    type_check_return(&mut contexts, &mut constraints, &values, &[CoreType::Int64], Some(&expected), None, 0, span())
        .expect("literal fits int32");
    assert_eq!(constraints.len(), 1);
    assert!(matches!(
        constraints[0],
        TypeConstraint::Equality { left: CoreType::Int32, right: CoreType::Int32, left_span: None, right_span: Some(_) }
    ));
}

#[test]
fn integer_values_of_other_widths_adopt_the_expected_type() {
    let mut contexts = body();
    let mut constraints = Vec::new();
    let values = vec![value(ident("x"), None)];
    let expected = [CoreType::UInt8];
    type_check_return(&mut contexts, &mut constraints, &values, &[CoreType::Int64], Some(&expected), None, 0, span())
        .expect("integers reconcile");
    assert!(matches!(constraints[0], TypeConstraint::Equality { right: CoreType::UInt8, .. }));
}

#[test]
fn incompatible_value_is_a_mismatch_after_earlier_constraints() {
    let mut contexts = body();
    let mut constraints = Vec::new();
    let values = vec![value(ident("a"), None), value(ident("b"), None)];
    let expected = [CoreType::Boolean, CoreType::String];
    let err = type_check_return(
        &mut contexts,
        &mut constraints,
        &values,
        &[CoreType::Boolean, CoreType::Int32],
        Some(&expected),
        None,
        0,
        span(),
    )
    .unwrap_err();
    assert!(matches!(err, TypeError::TypeMismatch { ref expected, ref found, expected_span: None, .. }
        if expected == "string" && found == "int32"));
    assert_eq!(constraints.len(), 1);
}

#[test]
fn wrong_number_of_values_is_an_arity_mismatch() {
    let mut contexts = body();
    let mut constraints = Vec::new();
    let values = vec![value(ident("a"), None)];
    let expected = [CoreType::Int32, CoreType::Int32];
    let err = type_check_return(&mut contexts, &mut constraints, &values, &[CoreType::Int32], Some(&expected), None, 0, span())
        .unwrap_err();
    assert!(matches!(err, TypeError::ArityMismatch { expected: 2, found: 1, .. }));
}

#[test]
fn bare_return_fits_a_unit_function_only() {
    let mut contexts = body();
    let mut constraints = Vec::new();
    assert!(type_check_return(&mut contexts, &mut constraints, &[], &[], Some(&[CoreType::Unit]), None, 0, span()).is_ok());
    let mut contexts = body();
    let err = type_check_return(&mut contexts, &mut constraints, &[], &[], Some(&[CoreType::Int32]), None, 0, span())
        .unwrap_err();
    assert!(matches!(err, TypeError::ArityMismatch { expected: 1, found: 0, .. }));
    let mut contexts = body();
    assert!(type_check_return(&mut contexts, &mut constraints, &[], &[], Some(&[CoreType::Int32]), None, 1, span()).is_ok());
}

#[test]
fn mixed_labels_are_rejected() {
    let mut contexts = body();
    let mut constraints = Vec::new();
    let values = vec![value(ident("a"), Some("sum")), value(ident("b"), None)];
    let expected = [CoreType::Int32, CoreType::Int32];
    let err = type_check_return(
        &mut contexts,
        &mut constraints,
        &values,
        &[CoreType::Int32, CoreType::Int32],
        Some(&expected),
        None,
        0,
        span(),
    )
    .unwrap_err();
    assert!(matches!(err, TypeError::ReturnLabelMismatch { ref found, .. }
        if found == "mixed labeled and unlabeled values in one return"));
}

#[test]
fn later_returns_must_repeat_the_first_labels() {
    let mut contexts = body();
    let mut constraints = Vec::new();
    let expected = [CoreType::Int32, CoreType::Int32];
    let types = [CoreType::Int32, CoreType::Int32];
    let first = vec![value(ident("a"), Some("sum")), value(ident("b"), Some("count"))];
    type_check_return(&mut contexts, &mut constraints, &first, &types, Some(&expected), None, 0, span())
        .expect("first return fixes the labels");
    let swapped = vec![value(ident("a"), Some("count")), value(ident("b"), Some("sum"))];
    let err = type_check_return(&mut contexts, &mut constraints, &swapped, &types, Some(&expected), None, 0, span())
        .unwrap_err();
    assert!(matches!(err, TypeError::ReturnLabelMismatch { ref expected, ref found, .. }
        if expected == "sum, count" && found == "count, sum"));
}

#[test]
fn pass_through_call_uses_the_callee_results() {
    let mut contexts = body();
    let mut constraints = Vec::new();
    let values = vec![value(call(), None)];
    let resolved = ResolvedReturn { return_types: vec![CoreType::Int32, CoreType::Boolean], return_labels: Vec::new() };
    let expected = [CoreType::Int32, CoreType::Boolean];
    type_check_return(&mut contexts, &mut constraints, &values, &[], Some(&expected), Some(&resolved), 0, span())
        .expect("call results match");
    assert_eq!(constraints.len(), 2);
    let short = [CoreType::Int32];
    let mut contexts = body();
    let err = type_check_return(&mut contexts, &mut constraints, &values, &[], Some(&short), Some(&resolved), 0, span())
        .unwrap_err();
    assert!(matches!(err, TypeError::ArityMismatch { expected: 1, found: 2, .. }));
}

#[test]
fn void_literal_in_guard_else_needs_no_type() {
    let mut contexts = body();
    let mut constraints = Vec::new();
    let values = vec![value(Expr::Literal { value: LiteralValue::Void, span: span() }, None)];
    let expected = [CoreType::Int32];
    type_check_return(&mut contexts, &mut constraints, &values, &[CoreType::Unit], Some(&expected), None, 1, span())
        .expect("void in guard else is skipped");
    assert!(constraints.is_empty());
}
