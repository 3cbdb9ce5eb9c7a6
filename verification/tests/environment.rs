use opalescent_types::constraints::TypeConstraint;
use opalescent_types::environment::TypeEnvironment;
use opalescent_types::error_compatibility::{declared_error_type_covers, root_error_accepts_nominal_error};
use opalescent_types::error_families::{
    error_type_is_covered_by_declared_type, register_stdlib_error_family_types, stdlib_error_core_type,
    stdlib_error_family, StdlibErrorFamily,
};
use opalescent_types::errors::TypeError;
use opalescent_types::token::{Position, Span};
use opalescent_types::types::CoreType;

fn span() -> Span {
    Span::new(Position::new(2, 3, 10), Position::new(2, 9, 16))
}

fn families() -> Vec<StdlibErrorFamily> {
    vec![
        StdlibErrorFamily {
            name: "IoError".to_owned(),
            members: vec!["FileNotFoundError".to_owned(), "PermissionDeniedError".to_owned()],
            warning_eligible: true,
            specificity_rank: 1,
        },
        StdlibErrorFamily {
            name: "ParseError".to_owned(),
            members: vec!["InvalidDigitError".to_owned()],
            warning_eligible: false,
            specificity_rank: 2,
        },
    ]
}

#[test]
fn builtins_are_registered_sorted() {
    let env = TypeEnvironment::new();
    let names = env.get_type_names();
    assert_eq!(names.len(), 14);
    let mut sorted = names.clone();
    sorted.sort();
    assert_eq!(names, sorted);
    assert!(env.has_type("void"));
    assert!(matches!(env.lookup_type("void", span()), Ok(CoreType::Unit)));
    assert!(matches!(env.lookup_type("int64", span()), Ok(CoreType::Int64)));
}

#[test]
fn unknown_type_is_reported_with_its_span() {
    let env = TypeEnvironment::default();
    match env.lookup_type("Widget", span()) {
        Err(TypeError::TypeNotFound { type_label, span: s }) => {
            assert_eq!(type_label, "Widget");
            assert_eq!(s.offset, 10);
            assert_eq!(s.length, 6);
        }
        other => panic!("unexpected {other:?}"),
    }
}

#[test]
fn registered_type_replaces_earlier_one() {
    let mut env = TypeEnvironment::new();
    env.register_type("int8".to_owned(), CoreType::Boolean);
    assert!(matches!(env.lookup_type("int8", span()), Ok(CoreType::Boolean)));
    env.register_type("Widget".to_owned(), CoreType::String);
    assert_eq!(env.get_type_names().len(), 15);
}

#[test]
fn family_coverage() {
    let families = families();
    assert_eq!(stdlib_error_family(&families, "ParseError").map(|f| f.specificity_rank), Some(2));
    assert!(stdlib_error_family(&families, "Nope").is_none());
    assert!(error_type_is_covered_by_declared_type(&families, "FileNotFoundError", "IoError"));
    assert!(error_type_is_covered_by_declared_type(&families, "IoError", "IoError"));
    assert!(!error_type_is_covered_by_declared_type(&families, "InvalidDigitError", "IoError"));
    assert!(!error_type_is_covered_by_declared_type(&families, "FileNotFoundError", "Unknown"));
}

#[test]
fn family_types_are_registered() {
    let families = families();
    let mut env = TypeEnvironment::new();
    register_stdlib_error_family_types(&mut env, &families);
    for name in ["IoError", "FileNotFoundError", "PermissionDeniedError", "ParseError", "InvalidDigitError"] {
        match env.lookup_type(name, span()) {
            Ok(CoreType::Generic { name: n, type_args }) => {
                assert_eq!(n, name);
                assert!(type_args.is_empty());
            }
            other => panic!("unexpected {other:?}"),
        }
    }
    assert_eq!(env.get_type_names().len(), 19);
}

#[test]
fn declared_errors_cover_emitted_ones() {
    let families = families();
    let io = stdlib_error_core_type("IoError");
    let missing = stdlib_error_core_type("FileNotFoundError");
    assert!(declared_error_type_covers(&families, &missing, &io));
    assert!(declared_error_type_covers(&families, &CoreType::Int8, &CoreType::Int8));
    assert!(!declared_error_type_covers(&families, &io, &missing));
}

#[test]
fn root_error_inspection() {
    assert!(root_error_accepts_nominal_error("Error", &[], "GuardErrorContext", &[CoreType::Int8]));
    assert!(root_error_accepts_nominal_error("Error", &[], "IoError", &[]));
    assert!(root_error_accepts_nominal_error("Error", &[], "Io.Error.Kind", &[]));
    assert!(!root_error_accepts_nominal_error("Error", &[], "IoError", &[CoreType::Int8]));
    assert!(!root_error_accepts_nominal_error("Error", &[CoreType::Int8], "IoError", &[]));
    assert!(!root_error_accepts_nominal_error("Failure", &[], "IoError", &[]));
}

#[test]
fn equality_constraint_keeps_its_spans() {
    let constraint = TypeConstraint::equality(CoreType::Int8, CoreType::Int16, Some(span()), None);
    match constraint {
        TypeConstraint::Equality { left, right, left_span, right_span } => {
            assert!(matches!(left, CoreType::Int8));
            assert!(matches!(right, CoreType::Int16));
            assert_eq!(left_span, Some(span()));
            assert_eq!(right_span, None);
        }
        _ => panic!("expected equality"),
    }
}
