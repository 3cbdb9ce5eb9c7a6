use opalescent_types::affine_aggregates::nominal_type;
use opalescent_types::ast::{Expr, LiteralValue, StringPart};
use opalescent_types::collection_exprs::{
    is_displayable_error_type, is_guard_error_interpolation_type, looks_like_error_type_name, type_check_array_expr,
    type_check_string_interpolation,
};
use opalescent_types::constraints::TypeConstraint;
use opalescent_types::errors::TypeError;
use opalescent_types::guard_errors::{constrained_type_name, constructor_display_name};
use opalescent_types::token::{Position, Span};
use opalescent_types::types::{CoreType, TypeVar};

fn span() -> Span {
    Span::single(Position::start())
}

fn ident(name: &str) -> Expr {
    Expr::Identifier { name: name.to_string(), span: span() }
}

fn int_lit(v: i64) -> Expr {
    Expr::Literal { value: LiteralValue::Integer(v), span: span() }
}

fn fresh() -> CoreType {
    CoreType::Variable(TypeVar { id: 7, name: "T7".to_string() })
}

#[test]
fn error_type_names_need_a_capital_and_error_suffix() {
    assert!(looks_like_error_type_name("IoError"));
    assert!(!looks_like_error_type_name("ioError"));
    assert!(!looks_like_error_type_name("IoFailure"));
    assert!(!looks_like_error_type_name(""));
    assert!(is_displayable_error_type(&nominal_type("ParseError")));
    assert!(!is_displayable_error_type(&CoreType::Generic {
        name: "ParseError".to_string(),
        type_args: vec![CoreType::Int32],
    }));
}

#[test]
fn guard_contexts_display_when_all_errors_do() {
    let good = CoreType::Generic {
        name: "GuardErrorContext".to_string(),
        type_args: vec![nominal_type("IoError"), nominal_type("ParseError")],
    };
    assert!(is_guard_error_interpolation_type(&good));
    let bad = CoreType::Generic {
        name: "GuardErrorContext".to_string(),
        type_args: vec![nominal_type("IoError"), CoreType::Int32],
    };
    assert!(!is_guard_error_interpolation_type(&bad));
}

#[test]
fn interpolation_rejects_undisplayable_values() {
    let parts = vec![
        StringPart::Text("n = ".to_string()),
        StringPart::Expression(ident("n")),
        StringPart::Expression(ident("xs")),
    ];
    let ok_types = [CoreType::Unit, CoreType::Int32, CoreType::String];
    assert!(type_check_string_interpolation(&parts, &ok_types).is_ok());
    let bad_types = [CoreType::Unit, CoreType::Int32, CoreType::Array(Box::new(CoreType::Int32))];
    let err = type_check_string_interpolation(&parts, &bad_types).unwrap_err();
    assert!(matches!(err, TypeError::InvalidOperation { ref operation, ref type_label, .. }
        if operation == "string interpolation" && type_label == "[int32]"));
}

#[test]
fn array_of_same_types_records_one_constraint_per_later_element() {
    let mut constraints = Vec::new();
    let elements = vec![ident("a"), ident("b"), ident("c")];
    let types = [CoreType::Int32, CoreType::Int32, CoreType::Int32];
    let t = type_check_array_expr(&mut constraints, &elements, &types, fresh()).expect("uniform array");
    assert!(matches!(t, CoreType::Array(ref e) if matches!(**e, CoreType::Int32)));
    assert_eq!(constraints.len(), 2);
    assert!(matches!(constraints[0], TypeConstraint::Equality { left_span: Some(_), right_span: Some(_), .. }));
}

#[test]
fn later_literal_adopts_the_element_type() {
    let mut constraints = Vec::new();
    let elements = vec![ident("a"), int_lit(2)];
    let types = [CoreType::UInt8, CoreType::Int64];
    let t = type_check_array_expr(&mut constraints, &elements, &types, fresh()).expect("literal coerces");
    assert!(matches!(t, CoreType::Array(ref e) if matches!(**e, CoreType::UInt8)));
}

#[test]
fn leading_literal_adopts_a_later_element_type() {
    let mut constraints = Vec::new();
    let elements = vec![int_lit(1), ident("b")];
    let types = [CoreType::Int64, CoreType::Int16];
    let t = type_check_array_expr(&mut constraints, &elements, &types, fresh()).expect("first literal coerces");
    assert!(matches!(t, CoreType::Array(ref e) if matches!(**e, CoreType::Int16)));
    assert!(matches!(constraints[0], TypeConstraint::Equality { left: CoreType::Int16, right: CoreType::Int16, .. }));
}

#[test]
fn mixed_array_is_a_mismatch_and_empty_array_takes_the_fresh_type() {
    let mut constraints = Vec::new();
    let elements = vec![ident("a"), ident("b")];
    let types = [CoreType::String, CoreType::Boolean];
    let err = type_check_array_expr(&mut constraints, &elements, &types, fresh()).unwrap_err();
    assert!(matches!(err, TypeError::TypeMismatch { ref expected, ref found, .. } if expected == "string" && found == "boolean"));
    assert!(constraints.is_empty());
    let t = type_check_array_expr(&mut constraints, &[], &[], fresh()).expect("empty array");
    assert!(matches!(t, CoreType::Array(ref e) if matches!(**e, CoreType::Variable(_))));
}

#[test]
fn constructor_names_and_constrained_targets() {
    assert_eq!(constructor_display_name(&ident("Point")), "Point");
    let member = Expr::Member { object: Box::new(ident("geo")), member: "Point".to_string(), span: span() };
    assert_eq!(constructor_display_name(&member), "geo.Point");
    assert_eq!(constructor_display_name(&int_lit(1)), "<constructor>");
    assert_eq!(constrained_type_name(&nominal_type("Port")), Some("Port"));
    assert_eq!(constrained_type_name(&CoreType::Int32), None);
}
