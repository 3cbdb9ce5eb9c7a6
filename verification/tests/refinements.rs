use opalescent_types::affine_aggregates::nominal_type;
use opalescent_types::ast::{BinaryOp, Expr};
use opalescent_types::environment::TypeEnvironment;
use opalescent_types::errors::TypeError;
use opalescent_types::name_map::NameMap;
use opalescent_types::refinements::{
    callee_borrow_metadata_name, extract_is_type_narrowing, extract_variant_refinement,
    refinement_value_type_allows_family, refinement_variant_identity,
};
use opalescent_types::token::{Position, Span};
use opalescent_types::types::CoreType;

fn span() -> Span {
    Span::single(Position::start())
}

fn ident(name: &str) -> Expr {
    Expr::Identifier { name: name.to_string(), span: span() }
}

fn member(object: &str, name: &str) -> Expr {
    Expr::Member { object: Box::new(ident(object)), member: name.to_string(), span: span() }
}

fn variants() -> NameMap<Vec<String>> {
    let mut table = NameMap::new();
    table.insert("Shape".to_string(), vec!["Shape.Circle".to_string(), "Shape.Square".to_string()]);
    table
}

#[test]
fn registered_variant_resolves_to_family_and_owner() {
    let (family, owner, _) = refinement_variant_identity(&variants(), &member("Shape", "Circle"), span())
        .expect("Shape.Circle is registered");
    assert_eq!(family, "Shape");
    assert_eq!(owner, "Shape.Circle");
}

#[test]
fn unknown_variant_is_reported() {
    let err = refinement_variant_identity(&variants(), &member("Shape", "Blob"), span()).unwrap_err();
    match err {
        TypeError::ConstraintSolvingFailed { reason, .. } => {
            assert_eq!(reason, "unknown variant 'Shape.Blob' in `is ... into` refinement");
        }
        other => panic!("unexpected {other:?}"),
    }
}

#[test]
fn variant_must_be_a_member_of_an_identifier() {
    let err = refinement_variant_identity(&variants(), &ident("Circle"), span()).unwrap_err();
    assert!(matches!(err, TypeError::ConstraintSolvingFailed { ref reason, .. }
        if reason == "right side of `is ... into` must name a known Type.Variant"));
}

#[test]
fn refinement_condition_yields_payload_binding() {
    let condition = Expr::Refinement {
        value: Box::new(ident("shape")),
        variant: Box::new(member("Shape", "Circle")),
        payload_binding: "circle".to_string(),
        span: span(),
    };
    let (variable, payload, owner, _) = extract_variant_refinement(&variants(), &condition).expect("refinement");
    assert_eq!(variable, "shape");
    assert_eq!(payload.as_deref(), Some("circle"));
    assert_eq!(owner, "Shape.Circle");
}

#[test]
fn is_condition_yields_variant_without_payload() {
    let condition = Expr::Binary {
        left: Box::new(ident("shape")),
        operator: BinaryOp::Is,
        right: Box::new(member("Shape", "Square")),
        span: span(),
    };
    let (variable, payload, owner, _) = extract_variant_refinement(&variants(), &condition).expect("refinement");
    assert_eq!(variable, "shape");
    assert!(payload.is_none());
    assert_eq!(owner, "Shape.Square");
    let unknown = Expr::Binary {
        left: Box::new(ident("shape")),
        operator: BinaryOp::Is,
        right: Box::new(member("Shape", "Blob")),
        span: span(),
    };
    assert!(extract_variant_refinement(&variants(), &unknown).is_none());
}

#[test]
fn is_type_narrowing_uses_known_types() {
    let environment = TypeEnvironment::new();
    let condition = Expr::Binary {
        left: Box::new(ident("x")),
        operator: BinaryOp::Is,
        right: Box::new(ident("int32")),
        span: span(),
    };
    let (name, narrowed, _) = extract_is_type_narrowing(&environment, &condition).expect("int32 is known");
    assert_eq!(name, "x");
    assert!(matches!(narrowed, CoreType::Int32));
    let unknown = Expr::Binary {
        left: Box::new(ident("x")),
        operator: BinaryOp::Is,
        right: Box::new(ident("Mystery")),
        span: span(),
    };
    assert!(extract_is_type_narrowing(&environment, &unknown).is_none());
}

#[test]
fn refinement_allows_family_variant_and_guard_context() {
    assert!(refinement_value_type_allows_family(&[], &nominal_type("Shape"), "Shape", "Shape.Circle"));
    assert!(refinement_value_type_allows_family(&[], &nominal_type("Shape.Circle"), "Shape", "Shape.Circle"));
    let context = CoreType::Generic { name: "GuardErrorContext".to_string(), type_args: vec![nominal_type("IoError")] };
    assert!(refinement_value_type_allows_family(&[], &context, "IoError", "IoError.NotFound"));
    assert!(!refinement_value_type_allows_family(&[], &context, "ParseError", "ParseError.Bad"));
    assert!(!refinement_value_type_allows_family(&[], &CoreType::Int32, "Shape", "Shape.Circle"));
}

#[test]
fn borrow_metadata_names_follow_callee_shape() {
    assert_eq!(callee_borrow_metadata_name(&ident("open")), Some("open".to_string()));
    assert_eq!(callee_borrow_metadata_name(&member("fs", "open")), Some("fs.open".to_string()));
    let call = Expr::Call { callee: Box::new(ident("f")), args: Vec::new(), span: span() };
    assert_eq!(callee_borrow_metadata_name(&call), None);
}
