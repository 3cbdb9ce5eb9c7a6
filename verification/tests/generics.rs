use opalescent_types::generics::GenericRegistry;
use opalescent_types::types::{CoreType, GenericTypeParameter, TypeVar};

fn param(name: &str, id: usize) -> GenericTypeParameter {
    GenericTypeParameter { name: name.to_owned(), type_var: TypeVar::new(id, name.to_owned()), constraints: Vec::new() }
}

#[test]
fn generic_params_are_registered_per_owner() {
    let mut registry = GenericRegistry::new();
    assert!(registry.adt_generic_params_for("Pair").is_none());
    registry.register_adt_generic_params("Pair".to_owned(), vec![param("A", 0), param("B", 1)]);
    let params = registry.adt_generic_params_for("Pair").expect("registered");
    assert_eq!(params.len(), 2);
    assert_eq!(params[0].name, "A");
    assert_eq!(params[1].type_var.id, 1);
    assert!(registry.adt_generic_params_for("Other").is_none());
}

#[test]
fn equal_instantiations_are_recorded_once() {
    let mut registry = GenericRegistry::new();
    registry.record_generic_instantiation("Box", &[CoreType::Int32]);
    registry.record_generic_instantiation("Box", &[CoreType::String]);
    registry.record_generic_instantiation("Box", &[CoreType::Int32]);
    registry.record_generic_instantiation("Pair", &[CoreType::Int32, CoreType::Boolean]);
    let recorded = registry.generic_instantiations();
    assert_eq!(recorded.len(), 2);
    let boxes = recorded.get("Box").expect("Box recorded");
    assert_eq!(boxes.len(), 2);
    assert!(boxes[0][0].equals(&CoreType::Int32));
    assert!(boxes[1][0].equals(&CoreType::String));
    let pairs = recorded.get("Pair").expect("Pair recorded");
    assert_eq!(pairs.len(), 1);
    assert_eq!(pairs[0].len(), 2);
    assert!(pairs[0][1].equals(&CoreType::Boolean));
}
