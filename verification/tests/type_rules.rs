use opalescent_types::ast::{BorrowKind, Expr, FieldDef, LambdaBody, LiteralValue, Parameter, Type, TypeDef, VariantDef};
use opalescent_types::errors::{TypeError, Warning};
use opalescent_types::token::{Position, Span};
use opalescent_types::type_rules::{
    lambda_signature_type,
    ast_type_to_core_type, decimal_string, type_check_pattern_match, types_compatible, validate_adt_type,
    validate_cast, validate_cast_with_warnings, TypeVarSupply,
};
use opalescent_types::types::{CoreType, GenericTypeParameter, TypeVar};

fn at(offset: usize) -> Span {
    Span::single(Position::new(1, offset + 1, offset))
}

fn basic(name: &str, offset: usize) -> Type {
    Type::Basic { name: name.to_owned(), span: at(offset) }
}

fn var(id: usize, name: &str) -> CoreType {
    CoreType::Variable(TypeVar::new(id, name.to_owned()))
}

#[test]
fn compatibility_is_structural() {
    assert!(types_compatible(&CoreType::Int8, &CoreType::Int8));
    assert!(!types_compatible(&CoreType::Int8, &CoreType::UInt8));
    assert!(types_compatible(&var(3, "a"), &var(3, "b")));
    assert!(!types_compatible(&var(3, "a"), &var(4, "a")));
    let list = |t: CoreType| CoreType::Generic { name: "List".to_owned(), type_args: vec![t] };
    assert!(types_compatible(&list(CoreType::String), &list(CoreType::String)));
    assert!(!types_compatible(&list(CoreType::String), &list(CoreType::Boolean)));
    let f = |generic: bool| CoreType::Function {
        generic_params: if generic {
            vec![GenericTypeParameter { name: "T".to_owned(), type_var: TypeVar::new(0, "T".to_owned()), constraints: vec![] }]
        } else {
            vec![]
        },
        parameters: vec![CoreType::Int32],
        return_types: vec![CoreType::Unit],
        error_types: vec![],
    };
    assert!(types_compatible(&f(true), &f(false)));
    assert!(!types_compatible(&CoreType::Array(Box::new(CoreType::Int8)), &CoreType::Int8));
}

#[test]
fn annotations_convert_to_core_types() {
    assert!(matches!(ast_type_to_core_type(&basic("void", 0)), Ok(CoreType::Unit)));
    let nested = Type::Generic {
        name: "Map".to_owned(),
        type_args: vec![basic("string", 1), Type::Array { element_type: Box::new(basic("int64", 3)), span: at(2) }],
        span: at(0),
    };
    match ast_type_to_core_type(&nested) {
        Ok(CoreType::Generic { name, type_args }) => {
            assert_eq!(name, "Map");
            assert!(matches!(type_args[0], CoreType::String));
            assert!(matches!(&type_args[1], CoreType::Array(e) if matches!(**e, CoreType::Int64)));
        }
        other => panic!("unexpected {other:?}"),
    }
    match ast_type_to_core_type(&Type::Array { element_type: Box::new(basic("Widget", 9)), span: at(8) }) {
        Err(TypeError::TypeNotFound { type_label, span }) => {
            assert_eq!(type_label, "Widget");
            assert_eq!(span.offset, 9);
        }
        other => panic!("unexpected {other:?}"),
    }
}

#[test]
fn unknown_error_annotations_become_nominal() {
    let function = Type::Function {
        parameters: vec![basic("int8", 1)],
        return_types: vec![basic("unit", 2)],
        errors: Some(vec![basic("IoError", 3), basic("boolean", 4)]),
        span: at(0),
    };
    match ast_type_to_core_type(&function) {
        Ok(CoreType::Function { generic_params, parameters, return_types, error_types }) => {
            assert!(generic_params.is_empty());
            assert_eq!(parameters.len(), 1);
            assert_eq!(return_types.len(), 1);
            assert!(matches!(&error_types[0], CoreType::Generic { name, type_args } if name == "IoError" && type_args.is_empty()));
            assert!(matches!(error_types[1], CoreType::Boolean));
        }
        other => panic!("unexpected {other:?}"),
    }
    let bad_parameter = Type::Function { parameters: vec![basic("Nope", 5)], return_types: vec![], errors: None, span: at(0) };
    assert!(matches!(ast_type_to_core_type(&bad_parameter), Err(TypeError::TypeNotFound { .. })));
}

#[test]
fn adt_definitions_name_known_types() {
    let sum = TypeDef::Sum {
        variants: vec![
            VariantDef { name: "A".to_owned(), fields: vec![FieldDef { name: "x".to_owned(), type_annotation: basic("int8", 1) }] },
            VariantDef { name: "B".to_owned(), fields: vec![FieldDef { name: "y".to_owned(), type_annotation: basic("Ghost", 7) }] },
        ],
    };
    match validate_adt_type(&sum) {
        Err(TypeError::TypeNotFound { type_label, .. }) => assert_eq!(type_label, "Ghost"),
        other => panic!("unexpected {other:?}"),
    }
    assert!(validate_adt_type(&TypeDef::Alias { target_type: basic("string", 0) }).is_ok());
    assert!(validate_adt_type(&TypeDef::Opaque).is_ok());
}

#[test]
fn pattern_match_reports_first_mismatch() {
    let patterns = vec![(CoreType::Int8, at(1)), (CoreType::String, at(2))];
    match type_check_pattern_match(&CoreType::Int8, at(0), &patterns, &[]) {
        Err(TypeError::TypeMismatch { expected, found, found_span, expected_span }) => {
            assert_eq!(expected, "int8");
            assert_eq!(found, "string");
            assert_eq!(found_span.offset, 2);
            assert_eq!(expected_span.map(|s| s.offset), Some(0));
        }
        other => panic!("unexpected {other:?}"),
    }
    let arms = vec![(CoreType::Boolean, at(3)), (CoreType::Boolean, at(4)), (CoreType::Unit, at(5))];
    match type_check_pattern_match(&CoreType::Int8, at(0), &patterns[..1], &arms) {
        Err(TypeError::TypeMismatch { expected, found, .. }) => {
            assert_eq!(expected, "boolean");
            assert_eq!(found, "unit");
        }
        other => panic!("unexpected {other:?}"),
    }
    assert!(type_check_pattern_match(&CoreType::Int8, at(0), &patterns[..1], &arms[..2]).is_ok());
}

#[test]
fn casts_are_validated_and_warned() {
    let mut warnings = Vec::new();
    assert!(validate_cast_with_warnings(&mut warnings, &CoreType::Int8, &CoreType::Int32, at(0)).is_ok());
    assert!(warnings.is_empty());
    assert!(validate_cast_with_warnings(&mut warnings, &CoreType::Int64, &CoreType::Int8, at(6)).is_ok());
    match &warnings[..] {
        [Warning::UnsafeCast { from_type, to_type, span, suppression_annotation }] => {
            assert_eq!(from_type, "int64");
            assert_eq!(to_type, "int8");
            assert_eq!(span.offset, 6);
            assert!(suppression_annotation.is_none());
        }
        other => panic!("unexpected {other:?}"),
    }
    match validate_cast(&CoreType::String, &CoreType::Int8, at(2)) {
        Err(TypeError::InvalidCast { from_type, to_type, .. }) => {
            assert_eq!(from_type, "string");
            assert_eq!(to_type, "int8");
        }
        other => panic!("unexpected {other:?}"),
    }
    assert!(validate_cast_with_warnings(&mut warnings, &CoreType::String, &CoreType::Int8, at(2)).is_err());
    assert_eq!(warnings.len(), 1);
}

#[test]
fn fresh_type_variables_count_up() {
    let mut supply = TypeVarSupply::new();
    match supply.fresh_type_var("T".to_owned(), at(0)) {
        Ok(CoreType::Variable(v)) => {
            assert_eq!(v.id, 0);
            assert_eq!(v.name, "T");
        }
        other => panic!("unexpected {other:?}"),
    }
    match supply.fresh_type_var_auto(at(0)) {
        Ok(CoreType::Variable(v)) => {
            assert_eq!(v.id, 1);
            assert_eq!(v.name, "t1");
        }
        other => panic!("unexpected {other:?}"),
    }
    assert_eq!(decimal_string(0), "0");
    assert_eq!(decimal_string(907), "907");
    assert_eq!(decimal_string(usize::MAX), usize::MAX.to_string());
}

fn lambda(params: Vec<Parameter>, return_types: Vec<Type>, error_types: Vec<String>) -> Expr {
    Expr::Lambda {
        params,
        return_types,
        error_types,
        body: LambdaBody::Expression(Box::new(Expr::Literal { value: LiteralValue::Void, span: at(0) })),
        span: at(0),
    }
}

#[test]
fn lambda_initializers_declare_function_types() {
    let params = vec![Parameter { name: "x".to_owned(), param_type: basic("int32", 1), borrow_kind: BorrowKind::Owned, span: at(1) }];
    let signature = lambda_signature_type(&lambda(params, vec![basic("boolean", 5)], vec!["IoError".to_owned()]))
        .expect("known types")
        .expect("a lambda");
    match signature {
        CoreType::Function { parameters, return_types, error_types, .. } => {
            assert!(matches!(parameters[..], [CoreType::Int32]));
            assert!(matches!(return_types[..], [CoreType::Boolean]));
            assert!(matches!(error_types[0], CoreType::Generic { ref name, .. } if name == "IoError"));
        }
        other => panic!("unexpected {other:?}"),
    }
    assert!(matches!(lambda_signature_type(&Expr::Literal { value: LiteralValue::Void, span: at(0) }), Ok(None)));
    let unknown = vec![Parameter { name: "x".to_owned(), param_type: basic("Mystery", 2), borrow_kind: BorrowKind::Owned, span: at(1) }];
    assert!(matches!(
        lambda_signature_type(&lambda(unknown, Vec::new(), Vec::new())),
        Err(TypeError::TypeNotFound { ref type_label, .. }) if type_label == "Mystery"
    ));
}
