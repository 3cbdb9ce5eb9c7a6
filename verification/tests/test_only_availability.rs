use opalescent_types::affine_aggregates::nominal_type;
use opalescent_types::ast::{DeclarationAnnotation, FieldDef, Type, TypeDef, TypeParameter, VariantDef};
use opalescent_types::errors::TypeError;
use opalescent_types::module_resolver::{ModuleAvailability, ModuleInterface, ModuleResolver, ModuleTypeDeclaration};
use opalescent_types::test_only_availability::{
    validate_production_ast_type_surface, validate_production_core_type_surface,
    validate_production_declaration_availability, validate_production_type_def_surface,
    validate_production_type_parameter_constraints,
};
use opalescent_types::token::{Position, Span};
use opalescent_types::types::CoreType;

fn at(offset: usize) -> Span {
    Span::single(Position::new(1, offset + 1, offset))
}

fn resolver() -> ModuleResolver {
    let mut resolver = ModuleResolver::new();
    let mut testing = ModuleInterface::with_availability("std.testing".to_owned(), ModuleAvailability::TestOnly);
    testing.register_type_declaration(ModuleTypeDeclaration {
        name: "TestScenario".to_owned(),
        source_path: "std/testing.op".to_owned(),
        is_public: true,
        span: at(0),
    });
    resolver.register_module_interface(testing);
    resolver
}

fn reason_of(r: Result<(), TypeError>) -> (String, usize) {
    match r {
        Err(TypeError::ConstraintSolvingFailed { reason, span }) => (reason, span.offset),
        other => panic!("unexpected {other:?}"),
    }
}

fn basic(name: &str, offset: usize) -> Type {
    Type::Basic { name: name.to_owned(), span: at(offset) }
}

#[test]
fn production_declarations_may_not_claim_test_authority() {
    let annotations = vec![
        DeclarationAnnotation::Other { span: at(1) },
        DeclarationAnnotation::Availability { value: "always".to_owned(), span: at(2) },
        DeclarationAnnotation::ConstructorVisibility { value: "test_runner".to_owned(), span: at(3) },
        DeclarationAnnotation::Availability { value: "test_only".to_owned(), span: at(4) },
    ];
    let (reason, offset) = reason_of(validate_production_declaration_availability(false, "Probe", &annotations));
    assert_eq!(
        reason,
        "test-only availability violation: production declaration 'Probe' declares @constructor_visibility(test_runner)"
    );
    assert_eq!(offset, 3);
    assert!(validate_production_declaration_availability(true, "Probe", &annotations).is_ok());
    assert!(validate_production_declaration_availability(false, "Probe", &annotations[..2]).is_ok());
}

#[test]
fn annotations_reaching_test_types_are_rejected() {
    let resolver = resolver();
    let annotation = Type::Function {
        parameters: vec![basic("int32", 1)],
        return_types: vec![Type::Array { element_type: Box::new(basic("TestScenario", 7)), span: at(6) }],
        errors: None,
        span: at(0),
    };
    let (reason, offset) =
        reason_of(validate_production_ast_type_surface(&resolver, false, "function return", "run", &annotation));
    assert_eq!(
        reason,
        "test-only availability violation: production function return 'run' references test-only type \
         'TestScenario' from 'std.testing'"
    );
    assert_eq!(offset, 7);
    assert!(validate_production_ast_type_surface(&resolver, true, "function return", "run", &annotation).is_ok());
    assert!(validate_production_ast_type_surface(&resolver, false, "function return", "run", &basic("int8", 0)).is_ok());
}

#[test]
fn generic_bounds_are_checked_in_order() {
    let resolver = resolver();
    let parameters = vec![
        TypeParameter { name: "A".to_owned(), constraints: vec![basic("Ordered", 1)] },
        TypeParameter {
            name: "B".to_owned(),
            constraints: vec![Type::Generic { name: "List".to_owned(), type_args: vec![basic("TestScenario", 9)], span: at(8) }],
        },
    ];
    let (_, offset) = reason_of(validate_production_type_parameter_constraints(
        &resolver,
        false,
        "generic bound",
        "f",
        Some(&parameters),
    ));
    assert_eq!(offset, 9);
    assert!(validate_production_type_parameter_constraints(&resolver, false, "generic bound", "f", None).is_ok());
}

#[test]
fn core_type_surfaces_are_checked() {
    let resolver = resolver();
    let (reason, offset) = reason_of(validate_production_core_type_surface(
        &resolver,
        false,
        "export",
        "scenario",
        &nominal_type("TestScenario"),
        at(5),
    ));
    assert!(reason.ends_with("references test-only type 'TestScenario' from 'std.testing'"));
    assert_eq!(offset, 5);
    assert!(validate_production_core_type_surface(&resolver, false, "export", "x", &CoreType::Int8, at(5)).is_ok());
}

#[test]
fn type_definitions_report_their_surface_kind() {
    let resolver = resolver();
    let sum = TypeDef::Sum {
        variants: vec![
            VariantDef { name: "Idle".to_owned(), fields: vec![] },
            VariantDef {
                name: "Running".to_owned(),
                fields: vec![FieldDef { name: "scenario".to_owned(), type_annotation: basic("TestScenario", 4) }],
            },
        ],
    };
    let (reason, _) = reason_of(validate_production_type_def_surface(&resolver, false, "State", &sum));
    assert!(reason.contains("production variant field 'State'"));
    let alias = TypeDef::Alias { target_type: basic("TestScenario", 2) };
    let (reason, _) = reason_of(validate_production_type_def_surface(&resolver, false, "Alias", &alias));
    assert!(reason.contains("production type alias 'Alias'"));
    let product = TypeDef::Product {
        fields: vec![FieldDef { name: "n".to_owned(), type_annotation: basic("int8", 1) }],
    };
    assert!(validate_production_type_def_surface(&resolver, false, "Plain", &product).is_ok());
    assert!(validate_production_type_def_surface(&resolver, false, "Opaque", &TypeDef::Opaque).is_ok());
}
