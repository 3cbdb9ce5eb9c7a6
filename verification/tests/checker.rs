use opalescent_types::arithmetic::ArithmeticMode;
use opalescent_types::ast::{BinaryOp, Decl, Expr, LiteralValue, Program};
use opalescent_types::checker::TypeChecker;
use opalescent_types::constraints::TypeConstraint;
use opalescent_types::errors::{TypeError, Warning};
use opalescent_types::symbol_table::{SymbolInfo, SymbolType, Visibility};
use opalescent_types::token::{Position, Span};
use opalescent_types::types::CoreType;

fn span() -> Span {
    Span::single(Position::start())
}

fn int_lit(v: i64) -> Expr {
    Expr::Literal { value: LiteralValue::Integer(v), span: span() }
}

#[test]
fn a_new_checker_knows_the_builtins() {
    let checker = TypeChecker::new();
    assert!(checker.environment().has_type("Option"));
    assert!(checker.environment().has_type("int32"));
    let print = checker.symbol_table().get("print").expect("print is registered");
    assert_eq!(print.symbol_type, SymbolType::Function);
    assert!(checker.symbol_table().get("int16.wrapping_sub").is_some());
    assert!(checker.constraints().is_empty());
    assert!(checker.warnings().is_empty());
}

#[test]
fn checker_division_by_literal_zero_records_metadata() {
    let mut checker = TypeChecker::new();
    let error = checker
        .type_check_binary_expr(&int_lit(7), &BinaryOp::Divide, &int_lit(0), span(), 42, &CoreType::Int64, &CoreType::Int64)
        .unwrap_err();
    assert!(matches!(error, TypeError::DivisionByZero { ref operation, .. } if operation == "division"));
    assert_eq!(checker.arithmetic_mode_for_expr(42), Some(ArithmeticMode::Default));
    assert!(checker.constant_integer_for_expr(42).is_none());
    checker.record_constant_integer_value(3, 9);
    checker.record_arithmetic_mode(3, ArithmeticMode::Default);
    assert_eq!(checker.constant_integer_for_expr(3), Some(9));
    checker.clear_constant_integer_value(3);
    assert!(checker.constant_integer_for_expr(3).is_none());
    checker.clear_expression_metadata();
    assert!(checker.arithmetic_mode_for_expr(42).is_none());
}

#[test]
fn fresh_type_variables_are_numbered_in_order() {
    let mut checker = TypeChecker::new();
    let a = checker.fresh_type_var("a".to_owned(), span()).expect("fresh");
    let b = checker.fresh_type_var("b".to_owned(), span()).expect("fresh");
    match (a, b) {
        (CoreType::Variable(a), CoreType::Variable(b)) => {
            assert_eq!((a.id, a.name.as_str()), (0, "a"));
            assert_eq!((b.id, b.name.as_str()), (1, "b"));
        }
        other => panic!("unexpected {other:?}"),
    }
}

#[test]
fn checker_solves_its_constraints() {
    let mut checker = TypeChecker::new();
    let t = checker.fresh_type_var("t".to_owned(), span()).expect("fresh");
    checker.add_constraint(TypeConstraint::equality(t.duplicate(), CoreType::Boolean, None, None));
    assert_eq!(checker.constraints().len(), 1);
    let s = checker.solve_constraints().expect("solvable");
    assert!(checker.constraints().is_empty());
    assert_eq!(s.apply(&t).display_name(), "boolean");
    checker.add_constraint(TypeConstraint::equality(CoreType::Int8, CoreType::Int16, None, None));
    checker.clear_constraints();
    assert!(checker.solve_constraints().is_ok());
    assert!(checker.unify(&CoreType::Int8, &CoreType::Int16, None, None).is_err());
}

#[test]
fn checker_symbols_and_warnings() {
    let mut checker = TypeChecker::new();
    checker.register_symbol(SymbolInfo {
        name: "x".to_owned(),
        symbol_type: SymbolType::Variable,
        core_type: CoreType::Int32,
        visibility: Visibility::Private,
        source_location: span(),
        is_let_binding: true,
        is_mutable: false,
        read_count: 0,
        is_pure: false,
    });
    assert_eq!(checker.symbol_table().get("x").map(|s| s.core_type.display_name()), Some("int32".to_owned()));
    checker.push_warning(Warning::ArithmeticOverflow {
        operation: "addition".to_owned(),
        type_label: "int8".to_owned(),
        span: opalescent_types::errors::DiagnosticSpan { offset: 0, length: 0 },
        suppression_annotation: None,
    });
    assert_eq!(checker.warnings().len(), 1);
    checker.clear_warnings();
    assert!(checker.warnings().is_empty());
}

#[test]
fn checker_validates_entry_points() {
    let program = Program {
        declarations: vec![Decl::Function {
            name: "main".to_owned(),
            parameters: Vec::new(),
            return_types: None,
            body: Vec::new(),
            is_entry: true,
            span: span(),
        }],
    };
    assert!(TypeChecker::validate_entry_points(&program).is_ok());
    assert!(matches!(
        TypeChecker::validate_entry_points(&Program { declarations: Vec::new() }),
        Err(TypeError::MissingEntryPoint { .. })
    ));
}
