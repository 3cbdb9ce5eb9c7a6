use opalescent_types::affine_containment::{core_type_contains_affine_resource, register_parameter_ownership};
use opalescent_types::ast::{BorrowKind, Parameter, Type};
use opalescent_types::name_map::NameMap;
use opalescent_types::ownership::OwnershipState;
use opalescent_types::token::{Position, Span};
use opalescent_types::types::CoreType;

fn at(offset: usize) -> Span {
    Span::single(Position::new(1, offset + 1, offset))
}

fn basic(name: &str) -> Type {
    Type::Basic { name: name.to_owned(), span: at(0) }
}

fn nominal(name: &str) -> CoreType {
    CoreType::Generic { name: name.to_owned(), type_args: Vec::new() }
}

fn fields(entries: &[(&str, CoreType)]) -> NameMap<CoreType> {
    let mut map = NameMap::new();
    for (name, t) in entries {
        map.insert((*name).to_owned(), t.duplicate());
    }
    map
}

/// `File` is affine; `Holder` holds one, `Wrapper` holds a `Holder`, `Loop` refers to
/// itself, and the `Right` variant of `Either` holds a `File`.
fn tables() -> (OwnershipState, NameMap<NameMap<CoreType>>, NameMap<Vec<String>>) {
    let mut ownership = OwnershipState::new();
    ownership.register_affine_resource_type("File".to_owned());
    let mut adt_fields = NameMap::new();
    adt_fields.insert("Holder".to_owned(), fields(&[("h", nominal("File"))]));
    adt_fields.insert("Wrapper".to_owned(), fields(&[("count", CoreType::Int32), ("w", nominal("Holder"))]));
    adt_fields.insert("Loop".to_owned(), fields(&[("next", nominal("Loop")), ("x", CoreType::Int8)]));
    adt_fields.insert("Either.Right".to_owned(), fields(&[("v", nominal("File"))]));
    adt_fields.insert("Either.Left".to_owned(), fields(&[("n", CoreType::Int8)]));
    let mut adt_variants = NameMap::new();
    adt_variants.insert("Either".to_owned(), vec!["Either.Left".to_owned(), "Either.Right".to_owned()]);
    (ownership, adt_fields, adt_variants)
}

#[test]
fn affine_state_is_found_through_fields_variants_and_arguments() {
    let (ownership, adt_fields, adt_variants) = tables();
    let check = |t: &CoreType| core_type_contains_affine_resource(&ownership, &adt_fields, &adt_variants, t);
    assert!(check(&nominal("File")));
    assert!(check(&CoreType::Array(Box::new(nominal("File")))));
    assert!(check(&nominal("Holder")));
    assert!(check(&nominal("Wrapper")));
    assert!(check(&nominal("Either")));
    assert!(check(&CoreType::Generic { name: "List".to_owned(), type_args: vec![CoreType::Int8, nominal("Holder")] }));
    assert!(!check(&nominal("Loop")));
    assert!(!check(&nominal("Unknown")));
    assert!(!check(&CoreType::Int64));
    let callback = CoreType::Function {
        generic_params: Vec::new(),
        parameters: vec![nominal("File")],
        return_types: Vec::new(),
        error_types: Vec::new(),
    };
    assert!(!check(&callback));
}

#[test]
fn parameters_register_owners_and_borrows() {
    let (mut ownership, adt_fields, adt_variants) = tables();
    let owned_param = Parameter { name: "w".to_owned(), param_type: basic("Widget"), borrow_kind: BorrowKind::Owned, span: at(3) };
    register_parameter_ownership(&mut ownership, &adt_fields, &adt_variants, &owned_param, &nominal("Wrapper"));
    let owner = ownership.owner("w").expect("owner registered");
    assert_eq!(owner.type_label, "Wrapper");
    assert_eq!(owner.source_location, at(3));
    assert!(owner.moved_at.is_none());
    let plain = Parameter { name: "n".to_owned(), param_type: basic("int32"), borrow_kind: BorrowKind::Owned, span: at(4) };
    register_parameter_ownership(&mut ownership, &adt_fields, &adt_variants, &plain, &CoreType::Int32);
    assert!(ownership.owner("n").is_none());
    let borrowed = Parameter { name: "w".to_owned(), param_type: basic("Widget"), borrow_kind: BorrowKind::MutableRef, span: at(5) };
    register_parameter_ownership(&mut ownership, &adt_fields, &adt_variants, &borrowed, &nominal("Wrapper"));
    assert!(ownership.owner("w").is_none());
    assert!(ownership.is_ref_param("w"));
    assert_eq!(ownership.borrow("w").expect("borrow").borrow_kind, BorrowKind::MutableRef);
}
