use opalescent_types::environment::TypeEnvironment;
use opalescent_types::errors::TypeError;
use opalescent_types::memory::core_type_requires_drop;
use opalescent_types::token::{Position, Span};
use opalescent_types::types::{CoreType, GenericTypeParameter, TypeVar};
use opalescent_types::unification::{occurs_check, validate_type_name};

fn var(id: usize) -> CoreType {
    CoreType::Variable(TypeVar::new(id, format!("t{id}")))
}

fn function(parameters: Vec<CoreType>, return_types: Vec<CoreType>, error_types: Vec<CoreType>) -> CoreType {
    CoreType::Function { generic_params: Vec::new(), parameters, return_types, error_types }
}

#[test]
fn occurs_check_finds_nested_variables() {
    assert!(occurs_check(3, &var(3)));
    assert!(!occurs_check(3, &var(4)));
    assert!(occurs_check(3, &CoreType::Array(Box::new(var(3)))));
    let list = CoreType::Generic { name: "List".to_owned(), type_args: vec![CoreType::Int8, var(7)] };
    assert!(occurs_check(7, &list));
    assert!(!occurs_check(8, &list));
    assert!(occurs_check(2, &function(vec![CoreType::Int8], vec![CoreType::Unit], vec![var(2)])));
    assert!(!occurs_check(2, &function(vec![CoreType::Int8], vec![var(1)], Vec::new())));
    let constrained = CoreType::Function {
        generic_params: vec![GenericTypeParameter {
            name: "T".to_owned(),
            type_var: TypeVar::new(9, "T".to_owned()),
            constraints: vec![var(9)],
        }],
        parameters: Vec::new(),
        return_types: Vec::new(),
        error_types: Vec::new(),
    };
    assert!(!occurs_check(9, &constrained));
}

#[test]
fn drop_is_required_for_managed_children() {
    assert!(core_type_requires_drop(&CoreType::String));
    assert!(core_type_requires_drop(&CoreType::Array(Box::new(CoreType::Int8))));
    assert!(core_type_requires_drop(&CoreType::Generic { name: "Box".to_owned(), type_args: Vec::new() }));
    assert!(!core_type_requires_drop(&CoreType::Int64));
    assert!(!core_type_requires_drop(&var(0)));
    assert!(!core_type_requires_drop(&function(vec![CoreType::Int8], vec![CoreType::Unit], Vec::new())));
    assert!(core_type_requires_drop(&function(vec![CoreType::Int8], vec![CoreType::String], Vec::new())));
    let constrained = CoreType::Function {
        generic_params: vec![GenericTypeParameter {
            name: "T".to_owned(),
            type_var: TypeVar::new(1, "T".to_owned()),
            constraints: vec![CoreType::String],
        }],
        parameters: Vec::new(),
        return_types: Vec::new(),
        error_types: Vec::new(),
    };
    assert!(core_type_requires_drop(&constrained));
}

#[test]
fn type_names_keep_their_first_meaning() {
    let env = TypeEnvironment::new();
    let span = Span::single(Position::new(2, 3, 10));
    assert!(validate_type_name(&env, "int32", &CoreType::Int32, span).is_ok());
    assert!(validate_type_name(&env, "Fresh", &CoreType::Boolean, span).is_ok());
    match validate_type_name(&env, "int32", &CoreType::String, span) {
        Err(TypeError::TypeMismatch { expected, found, found_span, expected_span }) => {
            assert_eq!(expected, "int32");
            assert_eq!(found, "string");
            assert_eq!(found_span.offset, 10);
            assert!(expected_span.is_none());
        },
        other => panic!("unexpected {other:?}"),
    }
}
