use opalescent_types::ast::{LetBinding, Type};
use opalescent_types::destructure::{register_destructure_bindings, validate_destructure_bindings};
use opalescent_types::errors::TypeError;
use opalescent_types::symbol_table::SymbolType;
use opalescent_types::token::{Position, Span};
use opalescent_types::types::CoreType;

fn span() -> Span {
    Span::single(Position::start())
}

fn binding(name: &str, label: Option<&str>) -> LetBinding {
    LetBinding {
        name: name.to_string(),
        returned_label: label.map(|l| l.to_string()),
        type_annotation: None,
        is_mutable: false,
        span: span(),
    }
}

fn annotated(name: &str, type_label: &str, is_mutable: bool) -> LetBinding {
    LetBinding {
        name: name.to_string(),
        returned_label: None,
        type_annotation: Some(Type::Basic { name: type_label.to_string(), span: span() }),
        is_mutable,
        span: span(),
    }
}

fn labels(names: &[&str]) -> Vec<String> {
    names.iter().map(|n| n.to_string()).collect()
}

#[test]
fn binding_names_matching_labels_are_accepted() {
    let bindings = vec![binding("sum", None), binding("count", None)];
    let types = [CoreType::Int32, CoreType::Int32];
    assert!(validate_destructure_bindings(&bindings, &types, &labels(&["sum", "count"]), span()).is_ok());
}

#[test]
fn value_count_must_match_binding_count() {
    let bindings = vec![binding("sum", None)];
    let types = [CoreType::Int32, CoreType::Int32];
    let err = validate_destructure_bindings(&bindings, &types, &[], span()).unwrap_err();
    assert!(matches!(err, TypeError::ArityMismatch { expected: 1, found: 2, .. }));
}

#[test]
fn reordered_names_are_rejected_with_the_position() {
    let bindings = vec![binding("count", None), binding("sum", None)];
    let types = [CoreType::Int32, CoreType::Int32];
    let err = validate_destructure_bindings(&bindings, &types, &labels(&["sum", "count"]), span()).unwrap_err();
    match err {
        TypeError::ReturnLabelMismatch { expected, found, .. } => {
            assert_eq!(
                expected,
                "destructure binding names must exactly match returned labels in order: expected label 'sum' at position 1, found 'count'"
            );
            assert_eq!(found, "count");
        }
        other => panic!("unexpected {other:?}"),
    }
}

#[test]
fn explicit_labels_verify_but_do_not_reorder() {
    let bindings = vec![binding("a", Some("sum")), binding("b", Some("total"))];
    let types = [CoreType::Int32, CoreType::Int32];
    let err = validate_destructure_bindings(&bindings, &types, &labels(&["sum", "count"]), span()).unwrap_err();
    match err {
        TypeError::ReturnLabelMismatch { expected, found, .. } => {
            assert_eq!(
                expected,
                "explicit destructure labels verify intent and do not reorder returned values: expected label 'count' at position 2, found 'total'"
            );
            assert_eq!(found, "total");
        }
        other => panic!("unexpected {other:?}"),
    }
}

#[test]
fn unlabeled_returns_accept_any_names() {
    let bindings = vec![binding("x", None), binding("y", None)];
    let types = [CoreType::Int32, CoreType::String];
    assert!(validate_destructure_bindings(&bindings, &types, &[], span()).is_ok());
}

#[test]
fn destructure_registers_one_local_per_binding() {
    let mut symbols = Vec::new();
    let bindings = vec![annotated("x", "int32", true), binding("y", None)];
    let types = [CoreType::Int32, CoreType::String];
    register_destructure_bindings(&mut symbols, &bindings, &types, span()).expect("annotations agree");
    assert_eq!(symbols.len(), 2);
    assert_eq!(symbols[0].name, "x");
    assert!(matches!(symbols[0].symbol_type, SymbolType::Variable));
    assert!(matches!(symbols[1].symbol_type, SymbolType::Constant));
    assert!(matches!(symbols[1].core_type, CoreType::String));
    assert!(symbols[1].is_let_binding);
}

#[test]
fn annotation_disagreeing_with_the_value_is_a_mismatch() {
    let mut symbols = Vec::new();
    let bindings = vec![binding("y", None), annotated("x", "string", false)];
    let types = [CoreType::Int32, CoreType::Int32];
    let err = register_destructure_bindings(&mut symbols, &bindings, &types, span()).unwrap_err();
    assert!(matches!(err, TypeError::TypeMismatch { ref expected, ref found, .. } if expected == "string" && found == "int32"));
    assert_eq!(symbols.len(), 1);
    let bindings = vec![annotated("x", "Mystery", false)];
    let err = register_destructure_bindings(&mut symbols, &bindings, &[CoreType::Int32], span()).unwrap_err();
    assert!(matches!(err, TypeError::TypeNotFound { ref type_label, .. } if type_label == "Mystery"));
}
