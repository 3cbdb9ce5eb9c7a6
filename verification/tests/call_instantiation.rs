use std::collections::BTreeMap;

use opalescent_types::call_instantiation::instantiate_call_type;
use opalescent_types::token::{Position, Span};
use opalescent_types::type_rules::TypeVarSupply;
use opalescent_types::types::{CoreType, TypeVar};

fn span() -> Span {
    Span::single(Position::start())
}

fn var(id: usize, name: &str) -> CoreType {
    CoreType::Variable(TypeVar { id, name: name.to_owned() })
}

fn var_id(t: &CoreType) -> usize {
    match t {
        CoreType::Variable(v) => v.id,
        other => panic!("expected a variable, got {other:?}"),
    }
}

#[test]
fn each_variable_gets_one_fresh_instance() {
    let mut supply = TypeVarSupply::new();
    let mut instantiations = BTreeMap::new();
    let signature = CoreType::Function {
        generic_params: Vec::new(),
        parameters: vec![var(7, "T"), CoreType::Array(Box::new(var(7, "T")))],
        return_types: vec![var(9, "U")],
        error_types: Vec::new(),
    };
    let instance = instantiate_call_type(&mut supply, &signature, &mut instantiations, span()).expect("ids remain");
    match instance {
        CoreType::Function { parameters, return_types, .. } => {
            assert_eq!(var_id(&parameters[0]), 0);
            assert!(matches!(parameters[1], CoreType::Array(ref e) if var_id(e) == 0));
            assert_eq!(var_id(&return_types[0]), 1);
            assert!(matches!(return_types[0], CoreType::Variable(ref v) if v.name == "t1"));
        }
        other => panic!("unexpected {other:?}"),
    }
    assert_eq!(instantiations.len(), 2);
}

#[test]
fn instantiating_again_reuses_the_recorded_instances() {
    let mut supply = TypeVarSupply::new();
    let mut instantiations = BTreeMap::new();
    let t = CoreType::Generic { name: "Box".to_owned(), type_args: vec![var(3, "T")] };
    let first = instantiate_call_type(&mut supply, &t, &mut instantiations, span()).expect("fresh");
    let second = instantiate_call_type(&mut supply, &t, &mut instantiations, span()).expect("reused");
    let arg = |c: &CoreType| match c {
        CoreType::Generic { type_args, .. } => var_id(&type_args[0]),
        other => panic!("unexpected {other:?}"),
    };
    assert_eq!(arg(&first), arg(&second));
    assert_eq!(instantiations.len(), 1);
    let next = instantiate_call_type(&mut supply, &var(4, "V"), &mut instantiations, span()).expect("fresh");
    assert_eq!(var_id(&next), 1);
}

#[test]
fn concrete_types_are_kept() {
    let mut supply = TypeVarSupply::new();
    let mut instantiations = BTreeMap::new();
    assert!(matches!(
        instantiate_call_type(&mut supply, &CoreType::String, &mut instantiations, span()),
        Ok(CoreType::String)
    ));
    assert!(instantiations.is_empty());
}
