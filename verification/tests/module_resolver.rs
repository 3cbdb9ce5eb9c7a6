use opalescent_types::affine_aggregates::nominal_type;
use opalescent_types::errors::TypeError;
use opalescent_types::module_resolver::{
    ModuleAvailability, ModuleInterface, ModuleResolver, ModuleTypeDeclaration,
};
use opalescent_types::name_map::NameMap;
use opalescent_types::symbol_table::{SymbolInfo, SymbolType, Visibility};
use opalescent_types::token::{Position, Span};
use opalescent_types::types::{CoreType, GenericTypeParameter, TypeVar};

fn span() -> Span {
    Span::new(Position::new(1, 1, 3), Position::new(1, 5, 7))
}

fn symbol(name: &str, visibility: Visibility) -> SymbolInfo {
    ModuleResolver::module_symbol(name.to_owned(), SymbolType::Function, CoreType::Int32, visibility)
}

fn declaration(name: &str) -> ModuleTypeDeclaration {
    ModuleTypeDeclaration {
        name: name.to_owned(),
        source_path: "std/testing.op".to_owned(),
        is_public: true,
        span: span(),
    }
}

#[test]
fn availability_gates_imports() {
    assert!(ModuleAvailability::Always.is_import_allowed(false, false));
    assert!(!ModuleAvailability::TestOnly.is_import_allowed(false, true));
    assert!(ModuleAvailability::TestOnly.is_import_allowed(true, false));
    assert!(!ModuleAvailability::FuturePublicApi.is_import_allowed(true, false));
    assert!(ModuleAvailability::FuturePublicApi.is_import_allowed(false, true));
    assert_eq!(
        ModuleAvailability::TestOnly.rejection_reason(),
        "module is test-only and may only be imported by test-runner compilations"
    );
    assert_eq!(ModuleAvailability::Always.rejection_help(), "No availability action is required.");
}

#[test]
fn duplicate_public_export_is_rejected() {
    let mut interface = ModuleInterface::new("app.main".to_owned());
    interface.register_symbol(symbol("run", Visibility::Public)).expect("first export");
    interface.register_symbol(symbol("helper", Visibility::Private)).expect("private");
    interface.register_symbol(symbol("helper", Visibility::Private)).expect("private again");
    let error = interface.register_symbol(symbol("run", Visibility::Entry)).unwrap_err();
    match error {
        TypeError::ConstraintSolvingFailed { reason, span: s } => {
            assert_eq!(reason, "duplicate public export 'run' in module 'app.main'");
            assert_eq!(s.offset, 0);
            assert_eq!(s.length, 0);
        }
        other => panic!("unexpected {other:?}"),
    }
    assert_eq!(interface.exports.len(), 1);
    assert_eq!(interface.private_symbols.len(), 1);
}

#[test]
fn interface_metadata_round_trips() {
    let mut interface = ModuleInterface::with_availability("std.testing".to_owned(), ModuleAvailability::TestOnly);
    interface.register_function_return_labels("f".to_owned(), vec!["ok".to_owned()]);
    assert_eq!(interface.function_return_labels("f").map(|v| v.len()), Some(1));
    assert!(interface.function_return_labels("g").is_none());
    interface.register_type_declaration(declaration("TestScenario"));
    assert_eq!(interface.type_declaration("TestScenario").map(|d| d.source_path.as_str()), Some("std/testing.op"));
    interface.register_namespace(vec!["std".to_owned(), "testing".to_owned()]);
    assert_eq!(interface.namespaces.len(), 1);
}

#[test]
fn resolve_symbol_reports_each_failure() {
    let mut resolver = ModuleResolver::new();
    resolver
        .generate_module_interface("lib", &[symbol("open", Visibility::Public), symbol("secret", Visibility::Private)])
        .expect("interface");
    let found = resolver.resolve_symbol("lib", "open", span()).expect("exported");
    assert_eq!(found.name, "open");
    match resolver.resolve_symbol("lib", "secret", span()).unwrap_err() {
        TypeError::PrivateSymbolAccess { symbol, module, .. } => {
            assert_eq!(symbol, "secret");
            assert_eq!(module, "lib");
        }
        other => panic!("unexpected {other:?}"),
    }
    match resolver.resolve_symbol("lib", "missing", span()).unwrap_err() {
        TypeError::SymbolNotFound { name, suggestion, .. } => {
            assert_eq!(name, "lib.missing");
            assert!(suggestion.is_none());
        }
        other => panic!("unexpected {other:?}"),
    }
    match resolver.resolve_symbol("nowhere", "open", span()).unwrap_err() {
        TypeError::UnresolvedImport { path, .. } => assert_eq!(path, "nowhere"),
        other => panic!("unexpected {other:?}"),
    }
}

#[test]
fn generate_module_interface_rejects_duplicate_exports_without_registering() {
    let mut resolver = ModuleResolver::new();
    let error = resolver
        .generate_module_interface(
            "lib",
            &[symbol("a", Visibility::Public), symbol("b", Visibility::Private), symbol("a", Visibility::Entry)],
        )
        .unwrap_err();
    assert!(matches!(error, TypeError::ConstraintSolvingFailed { .. }));
    assert!(resolver.module_interface("lib").is_none());
}

#[test]
fn resolve_all_exports_in_name_order() {
    let mut resolver = ModuleResolver::new();
    resolver
        .generate_module_interface(
            "lib",
            &[symbol("zeta", Visibility::Public), symbol("alpha", Visibility::Public), symbol("mid", Visibility::Private)],
        )
        .expect("interface");
    let exports = resolver.resolve_all_exports("lib", span()).expect("exports");
    let names: Vec<&str> = exports.iter().map(|s| s.name.as_str()).collect();
    assert_eq!(names, vec!["alpha", "zeta"]);
    assert!(resolver.resolve_all_exports("other", span()).is_err());
}

#[test]
fn dependency_cycle_is_reported_from_its_first_module() {
    let mut resolver = ModuleResolver::new();
    resolver.register_dependency("a", "b");
    resolver.register_dependency("b", "c");
    resolver.register_dependency("b", "c");
    resolver.register_dependency("c", "a");
    match resolver.validate_no_cycles_from("a", span()).unwrap_err() {
        TypeError::CircularDependency { cycle, .. } => assert_eq!(cycle, vec!["a", "b", "c", "a"]),
        other => panic!("unexpected {other:?}"),
    }
    match resolver.validate_no_cycles_from("b", span()).unwrap_err() {
        TypeError::CircularDependency { cycle, .. } => assert_eq!(cycle, vec!["b", "c", "a", "b"]),
        other => panic!("unexpected {other:?}"),
    }
}

#[test]
fn acyclic_graph_with_shared_dependencies_passes() {
    let mut resolver = ModuleResolver::new();
    resolver.register_dependency("app", "net");
    resolver.register_dependency("app", "fs");
    resolver.register_dependency("net", "core");
    resolver.register_dependency("fs", "core");
    assert!(resolver.validate_no_cycles_from("app", span()).is_ok());
    assert!(resolver.validate_no_cycles_from("unknown", span()).is_ok());
    resolver.register_dependency("core", "core");
    assert!(resolver.validate_no_cycles_from("app", span()).is_err());
}

#[test]
fn import_binding_conflicts_name_both_modules() {
    let mut resolver = ModuleResolver::new();
    resolver.validate_import_name_binding("main", "open", "fs", span()).expect("first binding");
    resolver.validate_import_name_binding("main", "open", "fs", span()).expect("same source again");
    resolver.validate_import_name_binding("other", "open", "net", span()).expect("other module");
    match resolver.validate_import_name_binding("main", "open", "net", span()).unwrap_err() {
        TypeError::ImportNameConflict { name, first_module, second_module, .. } => {
            assert_eq!(name, "open");
            assert_eq!(first_module, "fs");
            assert_eq!(second_module, "net");
        }
        other => panic!("unexpected {other:?}"),
    }
}

#[test]
fn test_only_types_are_found_in_signatures() {
    let mut resolver = ModuleResolver::new();
    let mut testing = ModuleInterface::with_availability("std.testing".to_owned(), ModuleAvailability::TestOnly);
    testing.register_type_declaration(declaration("TestScenario"));
    resolver.register_module_interface(testing);
    let mut public = ModuleInterface::new("std.core".to_owned());
    public.register_type_declaration(declaration("Widget"));
    resolver.register_module_interface(public);
    assert_eq!(resolver.test_only_type_source("TestScenario"), Some("std.testing"));
    assert_eq!(resolver.test_only_type_source("Widget"), None);
    let signature = CoreType::Function {
        generic_params: vec![GenericTypeParameter {
            name: "T".to_owned(),
            type_var: TypeVar::new(0, "T".to_owned()),
            constraints: vec![nominal_type("Widget")],
        }],
        parameters: vec![CoreType::Int32],
        return_types: vec![CoreType::Array(Box::new(nominal_type("TestScenario")))],
        error_types: vec![],
    };
    assert_eq!(
        resolver.core_type_test_only_reference(&signature),
        Some(("TestScenario".to_owned(), "std.testing".to_owned()))
    );
    assert_eq!(resolver.core_type_test_only_reference(&CoreType::Int32), None);
}

#[test]
fn adt_fields_create_the_module_interface() {
    let mut resolver = ModuleResolver::new();
    let mut fields: NameMap<CoreType> = NameMap::new();
    fields.insert("x".to_owned(), CoreType::Int32);
    resolver.register_adt_fields_for_module("geo", "Point".to_owned(), fields);
    let interface = resolver.module_interface("geo").expect("created");
    assert_eq!(interface.path, "geo");
    assert_eq!(interface.availability, ModuleAvailability::Always);
    assert!(interface.adt_fields.contains_key("Point"));
    resolver.register_symbol_for_module("geo", symbol("area", Visibility::Public)).expect("symbol");
    assert!(resolver.module_interface("geo").unwrap().adt_fields.contains_key("Point"));
    assert!(resolver.resolve_symbol("geo", "area", span()).is_ok());
}
