use opalescent_types::builtins::register_standard_builtins;
use opalescent_types::environment::TypeEnvironment;
use opalescent_types::name_map::NameMap;
use opalescent_types::symbol_table::{SymbolInfo, SymbolType, Visibility};
use opalescent_types::ast::{Decl, Program};
use opalescent_types::constraints::{solve_constraints, TypeConstraint};
use opalescent_types::declarations::validate_entry_points;
use opalescent_types::errors::TypeError;
use opalescent_types::substitution::Substitution;
use opalescent_types::token::{Position, Span};
use opalescent_types::types::{CoreType, TypeVar};
use opalescent_types::unification::unify;

fn var(id: usize) -> CoreType {
    CoreType::Variable(TypeVar::new(id, format!("t{id}")))
}

fn function(parameters: Vec<CoreType>, return_types: Vec<CoreType>) -> CoreType {
    CoreType::Function { generic_params: Vec::new(), parameters, return_types, error_types: Vec::new() }
}

fn nominal(name: &str, type_args: Vec<CoreType>) -> CoreType {
    CoreType::Generic { name: name.to_owned(), type_args }
}

fn at(offset: usize) -> Span {
    Span::new(Position::new(1, offset + 1, offset), Position::new(1, offset + 4, offset + 3))
}

fn shown(s: &Substitution, t: &CoreType) -> String {
    s.apply(t).display_name()
}

#[test]
fn substitution_basics() {
    let empty = Substitution::empty();
    assert!(empty.lookup(1).is_none());
    assert_eq!(shown(&empty, &var(1)), "t1");
    let one = Substitution::single(1, CoreType::Int32);
    assert_eq!(one.lookup(1).map(|t| t.display_name()), Some("int32".to_owned()));
    assert!(one.lookup(2).is_none());
    assert_eq!(shown(&one, &CoreType::Array(Box::new(var(1)))), "[int32]");
    assert_eq!(shown(&one, &nominal("Option", vec![var(1), var(2)])), "Option<int32, t2>");
}

#[test]
fn composition_applies_first_then_second() {
    let first = Substitution::single(1, var(2));
    let second = Substitution::single(2, CoreType::String);
    let both = first.compose(&second);
    assert_eq!(shown(&both, &var(1)), "string");
    assert_eq!(shown(&both, &var(2)), "string");
    let other = second.compose(&first);
    assert_eq!(shown(&other, &var(1)), "t2");
    assert_eq!(shown(&other, &var(2)), "string");
}

#[test]
fn unify_compatible_types_needs_no_binding() {
    let s = unify(&CoreType::Int32, &CoreType::Int32, None, None).expect("equal types unify");
    assert!(s.lookup(0).is_none());
    let s = unify(&var(3), &var(3), None, None).expect("a variable unifies with itself");
    assert!(s.lookup(3).is_none());
}

#[test]
fn unify_binds_variables_on_either_side() {
    let s = unify(&var(1), &CoreType::Int32, None, None).expect("variable binds");
    assert_eq!(s.lookup(1).map(|t| t.display_name()), Some("int32".to_owned()));
    let s = unify(&CoreType::String, &var(2), None, None).expect("variable binds");
    assert_eq!(s.lookup(2).map(|t| t.display_name()), Some("string".to_owned()));
    let s = unify(&var(1), &var(2), None, None).expect("variables bind");
    assert_eq!(s.lookup(1).map(|t| t.display_name()), Some("t2".to_owned()));
    assert!(s.lookup(2).is_none());
}

#[test]
fn unify_rejects_infinite_types() {
    let error = unify(&var(1), &CoreType::Array(Box::new(var(1))), Some(at(5)), Some(at(9))).expect_err("occurs check");
    match error {
        TypeError::OccursCheckFailed { var_name, type_label, span } => {
            assert_eq!(var_name, "t1");
            assert_eq!(type_label, "[t1]");
            assert_eq!((span.offset, span.length), (5, 3));
        }
        other => panic!("unexpected {other:?}"),
    }
    let error = unify(&CoreType::Array(Box::new(var(1))), &var(1), None, Some(at(9))).expect_err("occurs check");
    match error {
        TypeError::OccursCheckFailed { span, .. } => assert_eq!(span.offset, 9),
        other => panic!("unexpected {other:?}"),
    }
}

#[test]
fn unify_reports_mismatched_types_with_spans() {
    let error = unify(&CoreType::Int32, &CoreType::String, None, Some(at(7))).expect_err("different primitives");
    match error {
        TypeError::UnificationFailed { left, right, left_span, right_span } => {
            assert_eq!(left, "int32");
            assert_eq!(right, "string");
            assert_eq!(left_span.offset, 7);
            assert_eq!(right_span.offset, 7);
        }
        other => panic!("unexpected {other:?}"),
    }
    let error = unify(&CoreType::Int32, &CoreType::String, None, None).expect_err("different primitives");
    match error {
        TypeError::UnificationFailed { left_span, .. } => assert_eq!((left_span.offset, left_span.length), (0, 0)),
        other => panic!("unexpected {other:?}"),
    }
    assert!(matches!(
        unify(&nominal("List", vec![]), &nominal("Map", vec![]), None, None),
        Err(TypeError::UnificationFailed { .. })
    ));
    assert!(matches!(
        unify(&nominal("List", vec![var(1)]), &nominal("List", vec![]), None, None),
        Err(TypeError::UnificationFailed { .. })
    ));
    assert!(matches!(
        unify(&function(vec![var(1)], vec![]), &function(vec![], vec![]), None, None),
        Err(TypeError::UnificationFailed { .. })
    ));
}

#[test]
fn unify_structured_types_threads_bindings() {
    let left = function(vec![var(1), CoreType::Boolean], vec![var(2)]);
    let right = function(vec![CoreType::Int32, var(3)], vec![nominal("List", vec![var(1)])]);
    let s = unify(&left, &right, None, None).expect("function types unify");
    assert_eq!(shown(&s, &left), shown(&s, &right));
    assert_eq!(shown(&s, &left), "fn(int32, boolean) -> List<int32>");
    let s = unify(&CoreType::Array(Box::new(var(4))), &CoreType::Array(Box::new(CoreType::Boolean)), None, None)
        .expect("arrays unify");
    assert_eq!(shown(&s, &var(4)), "boolean");
    let error = unify(
        &function(vec![var(1), var(1)], vec![CoreType::Unit]),
        &function(vec![CoreType::Int32, CoreType::String], vec![CoreType::Unit]),
        None,
        None,
    )
    .expect_err("a variable cannot be two types");
    match error {
        TypeError::UnificationFailed { left, right, .. } => assert_eq!((left.as_str(), right.as_str()), ("int32", "string")),
        other => panic!("unexpected {other:?}"),
    }
}

#[test]
fn solving_no_constraints_gives_the_empty_substitution() {
    let mut constraints = Vec::new();
    let s = solve_constraints(&mut constraints).expect("nothing to solve");
    assert!(s.lookup(0).is_none());
}

#[test]
fn solving_equalities_composes_bindings() {
    let mut constraints = vec![
        TypeConstraint::equality(var(1), CoreType::Int32, None, None),
        TypeConstraint::equality(var(2), var(1), None, None),
    ];
    let s = solve_constraints(&mut constraints).expect("solvable");
    assert!(constraints.is_empty());
    assert_eq!(shown(&s, &var(1)), "int32");
    assert_eq!(shown(&s, &var(2)), "int32");
    let mut constraints = vec![
        TypeConstraint::equality(var(1), CoreType::Int32, None, None),
        TypeConstraint::equality(var(1), CoreType::String, Some(at(4)), None),
    ];
    assert!(matches!(solve_constraints(&mut constraints), Err(TypeError::UnificationFailed { .. })));
    assert!(constraints.is_empty());
}

#[test]
fn solving_field_constraints_is_not_supported() {
    let mut constraints = vec![TypeConstraint::HasField {
        owner: nominal("Point", vec![]),
        field_name: "x".to_owned(),
        field_type: CoreType::Int32,
        owner_span: None,
        field_span: Some(at(12)),
    }];
    match solve_constraints(&mut constraints) {
        Err(TypeError::NotImplementedYet { feature, span }) => {
            assert_eq!(feature, "constraint type HasField");
            assert_eq!(span.offset, 12);
        }
        other => panic!("unexpected {other:?}"),
    }
}

fn callable(callee: CoreType, arguments: Vec<CoreType>, return_type: CoreType) -> TypeConstraint {
    TypeConstraint::Callable {
        callee,
        arguments,
        return_type,
        callee_span: Some(at(2)),
        argument_spans: vec![None],
        return_span: None,
    }
}

#[test]
fn solving_call_constraints() {
    let mut constraints = vec![callable(function(vec![var(1)], vec![var(2)]), vec![CoreType::Int32], CoreType::String)];
    let s = solve_constraints(&mut constraints).expect("call is well typed");
    assert_eq!(shown(&s, &var(1)), "int32");
    assert_eq!(shown(&s, &var(2)), "string");

    let mut constraints = vec![callable(CoreType::Int32, vec![], CoreType::Unit)];
    match solve_constraints(&mut constraints) {
        Err(TypeError::NotCallable { type_label, span }) => {
            assert_eq!(type_label, "int32");
            assert_eq!(span.offset, 2);
        }
        other => panic!("unexpected {other:?}"),
    }

    let mut constraints = vec![callable(function(vec![var(1)], vec![CoreType::Unit]), vec![], CoreType::Unit)];
    assert!(matches!(
        solve_constraints(&mut constraints),
        Err(TypeError::ArityMismatch { expected: 1, found: 0, .. })
    ));

    let two_returns = function(vec![], vec![CoreType::Int32, CoreType::Int32]);
    let mut constraints = vec![callable(two_returns, vec![], CoreType::Int32)];
    assert!(matches!(
        solve_constraints(&mut constraints),
        Err(TypeError::ArityMismatch { expected: 1, found: 2, .. })
    ));
}

fn entry(is_entry: bool, offset: usize) -> Decl {
    Decl::Function {
        name: format!("f{offset}"),
        parameters: Vec::new(),
        return_types: None,
        body: Vec::new(),
        is_entry,
        span: at(offset),
    }
}

#[test]
fn exactly_one_entry_point_is_required() {
    let none = Program { declarations: vec![entry(false, 1), Decl::Comment { span: at(3) }] };
    match validate_entry_points(&none) {
        Err(TypeError::MissingEntryPoint { span }) => assert_eq!((span.offset, span.length), (0, 0)),
        other => panic!("unexpected {other:?}"),
    }
    let one = Program { declarations: vec![entry(false, 1), entry(true, 5)] };
    assert!(validate_entry_points(&one).is_ok());
    let two = Program { declarations: vec![entry(true, 7), entry(false, 1), entry(true, 9)] };
    match validate_entry_points(&two) {
        Err(TypeError::DuplicateEntryPoint { count, span }) => {
            assert_eq!(count, 2);
            assert_eq!(span.offset, 7);
        }
        other => panic!("unexpected {other:?}"),
    }
}

#[test]
fn standard_builtins_are_registered() {
    let mut environment = TypeEnvironment::new();
    let mut symbols: NameMap<SymbolInfo> = NameMap::new();
    register_standard_builtins(&mut environment, &mut symbols);
    assert_eq!(symbols.len(), 4 + 8 * 14);
    assert!(environment.has_type("Option"));
    let print = symbols.get("print").expect("print is built in");
    assert_eq!(print.symbol_type, SymbolType::Function);
    assert_eq!(print.visibility, Visibility::Public);
    assert_eq!(print.core_type.display_name(), "fn(T) -> unit");
    let show = |name: &str| symbols.get(name).map(|s| s.core_type.display_name());
    assert_eq!(show("take_input").as_deref(), Some("fn() -> string"));
    assert_eq!(show("string_to_int32").as_deref(), Some("fn(string) -> int32 errors ParseError"));
    assert_eq!(show("random_int32").as_deref(), Some("fn(int32, int32) -> int32"));
    assert_eq!(show("int8.checked_add").as_deref(), Some("fn(int8) -> Option<int8>"));
    assert_eq!(show("uint64.masked_bushr").as_deref(), Some("fn(uint64) -> uint64"));
    assert_eq!(show("int32.saturating_mul").as_deref(), Some("fn(int32) -> int32"));
    assert!(symbols.get("int128.checked_add").is_none());
}
