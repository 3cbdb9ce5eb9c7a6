use opalescent_types::ast::Type;
use opalescent_types::environment::TypeEnvironment;
use opalescent_types::error_families::StdlibErrorFamily;
use opalescent_types::error_sets::{type_name_can_be_error_leaf, ErrorSetMember, ErrorSets};
use opalescent_types::errors::{TypeError, Warning};
use opalescent_types::name_map::NameMap;
use opalescent_types::symbol_table::{SymbolInfo, SymbolType, Visibility};
use opalescent_types::token::{Position, Span};
use opalescent_types::types::CoreType;

fn at(offset: usize) -> Span {
    Span::single(Position::new(1, offset + 1, offset))
}

fn family(name: &str, members: &[&str], warning_eligible: bool, specificity_rank: usize) -> StdlibErrorFamily {
    StdlibErrorFamily {
        name: name.to_owned(),
        members: members.iter().map(|m| (*m).to_owned()).collect(),
        warning_eligible,
        specificity_rank,
    }
}

fn families() -> Vec<StdlibErrorFamily> {
    vec![
        family("FsError", &["NotFoundError", "PermissionError"], true, 2),
        family("ParseError", &["ParseError"], false, 1),
    ]
}

fn members(names: &[&str]) -> Vec<ErrorSetMember> {
    names.iter().enumerate().map(|(i, n)| ErrorSetMember { name: (*n).to_owned(), span: at(100 + i) }).collect()
}

fn strings(names: &[&str]) -> Vec<String> {
    names.iter().map(|n| (*n).to_owned()).collect()
}

fn leaf_names(types: &[CoreType]) -> Vec<String> {
    types.iter().map(|t| t.display_name()).collect()
}

fn declare(sets: &mut ErrorSets, env: &mut TypeEnvironment, name: &str, list: &[&str]) {
    let r = sets.register_error_set_declaration_raw(env, name.to_owned(), members(list), Visibility::Public, at(0));
    assert!(r.is_none());
}

/// An environment that knows the user leaf error `TimeoutError` and the plain type `Point`.
fn environment() -> TypeEnvironment {
    let mut env = TypeEnvironment::new();
    env.register_type("TimeoutError".to_owned(), CoreType::Generic { name: "TimeoutError".to_owned(), type_args: Vec::new() });
    env.register_type("Point".to_owned(), CoreType::Generic { name: "Point".to_owned(), type_args: Vec::new() });
    env
}

#[test]
fn leaf_names_follow_the_error_suffix_rule() {
    assert!(type_name_can_be_error_leaf("TimeoutError"));
    assert!(type_name_can_be_error_leaf("Net.Error.Reset"));
    assert!(!type_name_can_be_error_leaf("Error"));
    assert!(!type_name_can_be_error_leaf("Point"));
    let sets = ErrorSets::new();
    let env = environment();
    let mut symbols: NameMap<SymbolInfo> = NameMap::new();
    symbols.insert(
        "SocketError".to_owned(),
        SymbolInfo {
            name: "SocketError".to_owned(),
            symbol_type: SymbolType::Type,
            core_type: CoreType::Unit,
            visibility: Visibility::Public,
            source_location: at(0),
            is_let_binding: false,
            is_mutable: false,
            read_count: 0,
            is_pure: false,
        },
    );
    let fams = families();
    assert!(sets.is_error_leaf_name(&fams, &env, &symbols, "TimeoutError", at(0)));
    assert!(sets.is_error_leaf_name(&fams, &env, &symbols, "SocketError", at(0)));
    assert!(sets.is_error_leaf_name(&fams, &env, &symbols, "NotFoundError", at(0)));
    assert!(!sets.is_error_leaf_name(&fams, &env, &symbols, "FsError", at(0)));
    assert!(!sets.is_error_leaf_name(&fams, &env, &symbols, "Point", at(0)));
    assert!(!sets.is_error_leaf_name(&fams, &env, &symbols, "MissingError", at(0)));
}

#[test]
fn declared_sets_expand_to_sorted_distinct_leaves() {
    let mut sets = ErrorSets::new();
    let mut env = environment();
    let symbols: NameMap<SymbolInfo> = NameMap::new();
    let fams = families();
    declare(&mut sets, &mut env, "AppError", &["TimeoutError", "FsError"]);
    declare(&mut sets, &mut env, "AllError", &["PermissionError", "AppError"]);
    assert!(env.has_type("AppError"));
    let app = sets.expanded_error_set_members(&fams, &env, &symbols, "AppError").expect("expands");
    assert_eq!(app, strings(&["NotFoundError", "PermissionError", "TimeoutError"]));
    let all = sets.expanded_error_set_members(&fams, &env, &symbols, "AllError").expect("expands");
    assert_eq!(all, strings(&["NotFoundError", "PermissionError", "TimeoutError"]));
    let fs = sets.expanded_error_set_members(&fams, &env, &symbols, "FsError").expect("family");
    assert_eq!(fs, strings(&["NotFoundError", "PermissionError"]));
    assert!(sets.expanded_error_set_members(&fams, &env, &symbols, "TimeoutError").is_none());
}

#[test]
fn empty_and_repeated_declarations_are_refused() {
    let mut sets = ErrorSets::new();
    let mut env = environment();
    match sets.register_error_set_declaration_raw(&mut env, "NoneError".to_owned(), Vec::new(), Visibility::Public, at(7)) {
        Some(TypeError::EmptyErrorSet { set_name, span }) => {
            assert_eq!(set_name, "NoneError");
            assert_eq!(span.offset, 7);
        },
        other => panic!("unexpected {other:?}"),
    }
    let list = members(&["TimeoutError", "FsError", "TimeoutError", "FsError"]);
    match sets.register_error_set_declaration_raw(&mut env, "TwiceError".to_owned(), list, Visibility::Public, at(0)) {
        Some(TypeError::DuplicateErrorSetMember { set_name, member_name, span }) => {
            assert_eq!(set_name, "TwiceError");
            assert_eq!(member_name, "TimeoutError");
            assert_eq!(span.offset, 102);
        },
        other => panic!("unexpected {other:?}"),
    }
    assert!(!env.has_type("NoneError"));
    assert!(!env.has_type("TwiceError"));
}

#[test]
fn expansion_failures_are_reported() {
    let mut sets = ErrorSets::new();
    let mut env = environment();
    let symbols: NameMap<SymbolInfo> = NameMap::new();
    let fams = families();
    declare(&mut sets, &mut env, "LoopAError", &["LoopBError"]);
    declare(&mut sets, &mut env, "LoopBError", &["LoopAError"]);
    declare(&mut sets, &mut env, "PointError", &["TimeoutError", "Point"]);
    declare(&mut sets, &mut env, "GhostError", &["NowhereError"]);
    match sets.resolve_error_types(&fams, &env, &symbols, &strings(&["LoopAError"]), at(3)) {
        Err(TypeError::ErrorSetCycle { cycle, .. }) => assert_eq!(cycle, "LoopAError -> LoopBError -> LoopAError"),
        other => panic!("unexpected {other:?}"),
    }
    match sets.resolve_error_types(&fams, &env, &symbols, &strings(&["PointError"]), at(3)) {
        Err(TypeError::NonErrorSetMember { set_name, member_name, span }) => {
            assert_eq!(set_name, "PointError");
            assert_eq!(member_name, "Point");
            assert_eq!(span.offset, 101);
        },
        other => panic!("unexpected {other:?}"),
    }
    match sets.resolve_error_types(&fams, &env, &symbols, &strings(&["GhostError"]), at(3)) {
        Err(TypeError::UnknownErrorSetMember { set_name, member_name, .. }) => {
            assert_eq!(set_name, "GhostError");
            assert_eq!(member_name, "NowhereError");
        },
        other => panic!("unexpected {other:?}"),
    }
    match sets.resolve_error_types(&fams, &env, &symbols, &strings(&["TimeoutError", "MissingError"]), at(9)) {
        Err(TypeError::UndeclaredErrorType { name, span }) => {
            assert_eq!(name, "MissingError");
            assert_eq!(span.offset, 9);
        },
        other => panic!("unexpected {other:?}"),
    }
}

#[test]
fn resolved_error_types_are_sorted_leaf_types() {
    let mut sets = ErrorSets::new();
    let mut env = environment();
    let symbols: NameMap<SymbolInfo> = NameMap::new();
    let fams = families();
    declare(&mut sets, &mut env, "AppError", &["TimeoutError", "FsError"]);
    let resolved = sets
        .resolve_error_types(&fams, &env, &symbols, &strings(&["TimeoutError", "AppError", "ParseError"]), at(0))
        .expect("resolves");
    assert_eq!(leaf_names(&resolved), strings(&["NotFoundError", "ParseError", "PermissionError", "TimeoutError"]));
    assert!(matches!(&resolved[0], CoreType::Generic { type_args, .. } if type_args.is_empty()));
}

#[test]
fn annotations_prefer_generic_bindings() {
    let mut sets = ErrorSets::new();
    let mut env = environment();
    let symbols: NameMap<SymbolInfo> = NameMap::new();
    let fams = families();
    declare(&mut sets, &mut env, "AppError", &["TimeoutError"]);
    let bindings = vec![("E".to_owned(), CoreType::Int32), ("AppError".to_owned(), CoreType::Boolean)];
    let bound = Type::Basic { name: "AppError".to_owned(), span: at(0) };
    let r = sets.resolve_error_annotation_type_with_generics(&fams, &env, &symbols, &bound, &bindings).expect("bound");
    assert_eq!(r.len(), 1);
    assert!(matches!(r[0], CoreType::Boolean));
    let plain = Type::Basic { name: "AppError".to_owned(), span: at(0) };
    let r = sets.resolve_error_annotation_type_with_generics(&fams, &env, &symbols, &plain, &[]).expect("expands");
    assert_eq!(leaf_names(&r), strings(&["TimeoutError"]));
    let array = Type::Array { element_type: Box::new(Type::Basic { name: "int32".to_owned(), span: at(0) }), span: at(0) };
    let r = sets.resolve_error_annotation_type_with_generics(&fams, &env, &symbols, &array, &[]).expect("converts");
    assert_eq!(leaf_names(&r), strings(&["[int32]"]));
}

#[test]
fn preferred_names_favour_declared_sets_then_families() {
    let mut sets = ErrorSets::new();
    let mut env = environment();
    let symbols: NameMap<SymbolInfo> = NameMap::new();
    let fams = families();
    let leaves = strings(&["NotFoundError", "PermissionError"]);
    assert_eq!(
        sets.preferred_exact_error_set_name_for_members(&fams, &env, &symbols, &leaves, at(0)),
        Some("FsError".to_owned())
    );
    declare(&mut sets, &mut env, "ZetaError", &["FsError"]);
    declare(&mut sets, &mut env, "BetaError", &["PermissionError", "NotFoundError"]);
    assert_eq!(
        sets.preferred_exact_error_set_name_for_members(&fams, &env, &symbols, &leaves, at(0)),
        Some("BetaError".to_owned())
    );
    assert_eq!(
        sets.preferred_exact_error_set_name_for_members(&fams, &env, &symbols, &strings(&["NotFoundError"]), at(0)),
        None
    );
    assert!(sets.is_warning_error_set_name(&fams, "FsError"));
    assert!(sets.is_warning_error_set_name(&fams, "BetaError"));
    assert!(!sets.is_warning_error_set_name(&fams, "ParseError"));
    assert!(!sets.is_warning_error_set_name(&fams, "TimeoutError"));
}

#[test]
fn clause_lints_cover_replaceable_redundant_overlap_and_unused() {
    let mut sets = ErrorSets::new();
    let mut env = environment();
    let symbols: NameMap<SymbolInfo> = NameMap::new();
    let fams = families();
    declare(&mut sets, &mut env, "AppError", &["TimeoutError", "FsError"]);
    let mut warnings = Vec::new();
    let leaves = [
        CoreType::Generic { name: "NotFoundError".to_owned(), type_args: Vec::new() },
        CoreType::Generic { name: "PermissionError".to_owned(), type_args: Vec::new() },
    ];
    sets.warn_for_error_clause(
        &fams,
        &env,
        &symbols,
        &mut warnings,
        &strings(&["PermissionError", "NotFoundError", "PermissionError"]),
        &leaves,
        None,
        at(5),
    );
    assert_eq!(warnings.len(), 1);
    match &warnings[0] {
        Warning::ReplaceableErrorList { family_name, replaceable_errors, span, suppression_annotation } => {
            assert_eq!(family_name, "FsError");
            assert_eq!(replaceable_errors, "PermissionError, NotFoundError");
            assert_eq!(span.offset, 5);
            assert!(suppression_annotation.is_none());
        },
        other => panic!("unexpected {other:?}"),
    }

    let mut warnings = Vec::new();
    let escaping = strings(&["TimeoutError"]);
    sets.warn_for_error_clause(
        &fams,
        &env,
        &symbols,
        &mut warnings,
        &strings(&["NotFoundError", "FsError", "AppError"]),
        &[],
        Some(&escaping),
        at(0),
    );
    assert_eq!(warnings.len(), 3);
    match &warnings[0] {
        Warning::ErrorSetRedundantMember { redundant_member, covering_set, .. } => {
            assert_eq!(redundant_member, "NotFoundError");
            assert_eq!(covering_set, "FsError");
        },
        other => panic!("unexpected {other:?}"),
    }
    match &warnings[1] {
        Warning::ErrorSetOverlap { narrower_set, broader_set, .. } => {
            assert_eq!(narrower_set, "FsError");
            assert_eq!(broader_set, "AppError");
        },
        other => panic!("unexpected {other:?}"),
    }
    match &warnings[2] {
        Warning::ErrorSetUnusedMembers { set_name, unused_members, suggested_errors, .. } => {
            assert_eq!(set_name, "AppError");
            assert_eq!(unused_members, "NotFoundError, PermissionError");
            assert_eq!(suggested_errors, "TimeoutError");
        },
        other => panic!("unexpected {other:?}"),
    }
}

#[test]
fn escaping_collections_nest() {
    let mut sets = ErrorSets::new();
    sets.record_escaping_error_types(&[CoreType::String]);
    assert!(sets.end_escaping_error_collection().is_empty());
    sets.begin_escaping_error_collection();
    sets.begin_escaping_error_collection();
    let timeout = CoreType::Generic { name: "TimeoutError".to_owned(), type_args: Vec::new() };
    let parse = CoreType::Generic { name: "ParseError".to_owned(), type_args: Vec::new() };
    sets.record_escaping_error_types(&[timeout, parse]);
    let inner = sets.end_escaping_error_collection();
    assert_eq!(inner, strings(&["ParseError", "TimeoutError"]));
    assert!(sets.end_escaping_error_collection().is_empty());
}
