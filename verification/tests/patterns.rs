use opalescent_types::ast::{Expr, LiteralValue, MatchArm, Pattern};
use opalescent_types::errors::TypeError;
use opalescent_types::name_map::NameMap;
use opalescent_types::patterns::{
    adt_name_for_type, collect_missing_variants, match_is_exhaustive, type_check_match_expr, type_check_pattern,
};
use opalescent_types::symbol_table::{SymbolInfo, SymbolType, Visibility};
use opalescent_types::token::{Position, Span};
use opalescent_types::types::CoreType;

fn at(offset: usize) -> Span {
    Span::single(Position::new(1, offset + 1, offset))
}

fn shape() -> CoreType {
    CoreType::Generic { name: "Shape".to_owned(), type_args: Vec::new() }
}

fn registry() -> NameMap<Vec<String>> {
    let mut variants = NameMap::new();
    variants.insert(
        "Shape".to_owned(),
        vec!["Shape.Circle".to_owned(), "Shape.Square".to_owned(), "Shape.Point".to_owned()],
    );
    variants
}

fn variant(type_label: Option<&str>, name: &str, fields: Vec<(String, Pattern)>) -> Pattern {
    Pattern::Variant { type_label: type_label.map(str::to_owned), variant_name: name.to_owned(), fields, span: at(4) }
}

fn arm(pattern: Pattern) -> MatchArm {
    MatchArm { pattern, guard: None, body: Expr::Literal { value: LiteralValue::Void, span: at(0) }, span: at(0) }
}

#[test]
fn bindings_are_registered_with_the_scrutinee_type() {
    let variants = registry();
    let mut bindings: Vec<SymbolInfo> = Vec::new();
    let pattern = variant(
        None,
        "Circle",
        vec![
            ("radius".to_owned(), Pattern::Binding { name: "r".to_owned(), span: at(9) }),
            ("centre".to_owned(), Pattern::Wildcard { span: at(12) }),
        ],
    );
    assert!(type_check_pattern(&variants, &pattern, &shape(), &mut bindings).is_ok());
    assert_eq!(bindings.len(), 1);
    assert_eq!(bindings[0].name, "r");
    assert_eq!(bindings[0].symbol_type, SymbolType::Variable);
    assert_eq!(bindings[0].visibility, Visibility::Private);
    assert_eq!(bindings[0].source_location, at(9));
    assert!(matches!(&bindings[0].core_type, CoreType::Generic { name, .. } if name == "Shape"));
    assert!(!bindings[0].is_mutable);
}

#[test]
fn tuple_patterns_need_an_array_scrutinee() {
    let variants = registry();
    let mut bindings: Vec<SymbolInfo> = Vec::new();
    let pattern = Pattern::Tuple {
        elements: vec![
            Pattern::Binding { name: "first".to_owned(), span: at(1) },
            Pattern::Literal { value: LiteralValue::String("x".to_owned()), span: at(2) },
            Pattern::Binding { name: "never".to_owned(), span: at(3) },
        ],
        span: at(0),
    };
    let array = CoreType::Array(Box::new(CoreType::Int64));
    match type_check_pattern(&variants, &pattern, &array, &mut bindings) {
        Err(TypeError::PatternTypeMismatch { expected, found, span }) => {
            assert_eq!(expected, "int64");
            assert_eq!(found, "string");
            assert_eq!(span.offset, 2);
        },
        other => panic!("unexpected {other:?}"),
    }
    assert_eq!(bindings.len(), 1);
    assert!(matches!(bindings[0].core_type, CoreType::Int64));
    match type_check_pattern(&variants, &pattern, &CoreType::Boolean, &mut Vec::new()) {
        Err(TypeError::PatternTypeMismatch { expected, found, .. }) => {
            assert_eq!(expected, "tuple/array-compatible type");
            assert_eq!(found, "boolean");
        },
        other => panic!("unexpected {other:?}"),
    }
    let literal = Pattern::Literal { value: LiteralValue::Integer(3), span: at(0) };
    assert!(type_check_pattern(&variants, &literal, &CoreType::Int64, &mut Vec::new()).is_ok());
}

#[test]
fn variant_patterns_must_name_registered_variants() {
    let variants = registry();
    match type_check_pattern(&variants, &variant(Some("Colour"), "Red", Vec::new()), &shape(), &mut Vec::new()) {
        Err(TypeError::PatternTypeMismatch { expected, found, .. }) => {
            assert_eq!(expected, "Colour");
            assert_eq!(found, "Red");
        },
        other => panic!("unexpected {other:?}"),
    }
    match type_check_pattern(&variants, &variant(None, "Triangle", Vec::new()), &shape(), &mut Vec::new()) {
        Err(TypeError::PatternTypeMismatch { expected, found, span }) => {
            assert_eq!(expected, "Shape");
            assert_eq!(found, "Shape.Triangle");
            assert_eq!(span.offset, 4);
        },
        other => panic!("unexpected {other:?}"),
    }
    assert!(type_check_pattern(&variants, &variant(Some("Shape"), "Point", Vec::new()), &shape(), &mut Vec::new()).is_ok());
}

#[test]
fn exhaustiveness_tracks_missing_variants_in_order() {
    let variants = registry();
    let arms = vec![arm(variant(None, "Square", Vec::new())), arm(variant(Some("Shape"), "Circle", Vec::new()))];
    assert_eq!(collect_missing_variants(&variants, &arms, &shape()), vec!["Shape.Point".to_owned()]);
    assert!(!match_is_exhaustive(&variants, &arms, &shape()));
    let mut all = arms;
    all.push(arm(variant(None, "Point", Vec::new())));
    assert!(collect_missing_variants(&variants, &all, &shape()).is_empty());
    assert!(match_is_exhaustive(&variants, &all, &shape()));
    let catch_all = vec![arm(Pattern::Binding { name: "s".to_owned(), span: at(0) })];
    assert!(match_is_exhaustive(&variants, &catch_all, &CoreType::Int32));
    assert!(!match_is_exhaustive(&variants, &[], &CoreType::Int32));
    assert_eq!(adt_name_for_type(&CoreType::Int32), "int32");
    assert_eq!(adt_name_for_type(&shape()), "Shape");
}

#[test]
fn match_takes_the_first_arm_type_when_all_agree_and_cover() {
    let variants = registry();
    let arms = vec![arm(variant(None, "Circle", Vec::new())), arm(Pattern::Wildcard { span: at(0) })];
    let t = type_check_match_expr(&variants, &arms, &shape(), &[CoreType::Int32, CoreType::Int32], at(0))
        .expect("exhaustive and agreeing");
    assert!(matches!(t, CoreType::Int32));
}

#[test]
fn match_arm_with_another_type_is_reported_by_index() {
    let variants = registry();
    let arms = vec![
        arm(Pattern::Wildcard { span: at(0) }),
        arm(Pattern::Wildcard { span: at(0) }),
        arm(Pattern::Wildcard { span: at(0) }),
    ];
    let err = type_check_match_expr(&variants, &arms, &shape(), &[CoreType::Int32, CoreType::Int32, CoreType::String], at(0))
        .unwrap_err();
    assert!(matches!(err, TypeError::MatchArmTypeMismatch { arm_index: 2, ref expected, ref found, .. }
        if expected == "int32" && found == "string"));
}

#[test]
fn match_missing_variants_is_not_exhaustive() {
    let variants = registry();
    let arms = vec![arm(variant(None, "Circle", Vec::new()))];
    let err = type_check_match_expr(&variants, &arms, &shape(), &[CoreType::Unit], at(0)).unwrap_err();
    match err {
        TypeError::NonExhaustiveMatch { missing_variants, .. } => {
            assert_eq!(missing_variants, vec!["Shape.Square".to_owned(), "Shape.Point".to_owned()]);
        }
        other => panic!("unexpected {other:?}"),
    }
}
