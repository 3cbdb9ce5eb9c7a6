use opalescent_types::ast::Expr;
use opalescent_types::conditionals::type_check_if_expr;
use opalescent_types::constraints::TypeConstraint;
use opalescent_types::errors::TypeError;
use opalescent_types::token::{Position, Span};
use opalescent_types::types::CoreType;

fn span() -> Span {
    Span::single(Position::start())
}

fn cond() -> Expr {
    Expr::Identifier { name: "c".to_string(), span: span() }
}

#[test]
fn if_with_agreeing_branches_has_the_branch_type() {
    let mut constraints = Vec::new();
    let t = type_check_if_expr(
        &mut constraints,
        &cond(),
        &CoreType::Boolean,
        span(),
        &CoreType::Int32,
        Some((&CoreType::Int32, span())),
        None,
        span(),
    )
    .expect("branches agree");
    assert!(matches!(t, CoreType::Int32));
    assert_eq!(constraints.len(), 1);
}

#[test]
fn if_condition_must_be_boolean() {
    let mut constraints = Vec::new();
    let err = type_check_if_expr(&mut constraints, &cond(), &CoreType::Int32, span(), &CoreType::Unit, None, None, span())
        .unwrap_err();
    assert!(matches!(err, TypeError::InvalidOperation { ref operation, .. } if operation == "if condition"));
    assert!(constraints.is_empty());
}

#[test]
fn disagreeing_branches_are_a_mismatch_after_the_constraint() {
    let mut constraints = Vec::new();
    let err = type_check_if_expr(
        &mut constraints,
        &cond(),
        &CoreType::Boolean,
        span(),
        &CoreType::Int32,
        Some((&CoreType::String, span())),
        None,
        span(),
    )
    .unwrap_err();
    assert!(matches!(err, TypeError::TypeMismatch { .. }));
    assert_eq!(constraints.len(), 1);
}

#[test]
fn if_without_else_is_unit_unless_a_value_is_required() {
    let mut constraints = Vec::new();
    let t = type_check_if_expr(&mut constraints, &cond(), &CoreType::Boolean, span(), &CoreType::Unit, None, None, span())
        .expect("statement if");
    assert!(matches!(t, CoreType::Unit));
    assert!(matches!(constraints[0], TypeConstraint::Equality { left: CoreType::Unit, right: CoreType::Unit, .. }));
    let err = type_check_if_expr(
        &mut constraints,
        &cond(),
        &CoreType::Boolean,
        span(),
        &CoreType::Unit,
        None,
        Some(&CoreType::Int32),
        span(),
    )
    .unwrap_err();
    assert!(matches!(err, TypeError::MissingElseBranch { ref expected_type, .. } if expected_type == "int32"));
}
