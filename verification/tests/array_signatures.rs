use opalescent_types::array_signatures::{bind_array_signature, ARRAY_ELEMENT_VAR_ID};
use opalescent_types::types::{CoreType, TypeVar};

fn placeholder() -> CoreType {
    CoreType::Variable(TypeVar { id: ARRAY_ELEMENT_VAR_ID, name: "T".to_string() })
}

#[test]
fn placeholder_is_replaced_throughout_a_signature() {
    let signature = CoreType::Function {
        generic_params: Vec::new(),
        parameters: vec![CoreType::Array(Box::new(placeholder())), CoreType::Int64],
        return_types: vec![CoreType::Generic { name: "Option".to_string(), type_args: vec![placeholder()] }],
        error_types: Vec::new(),
    };
    let bound = bind_array_signature(&signature, &CoreType::String);
    match bound {
        CoreType::Function { parameters, return_types, .. } => {
            assert!(matches!(parameters[0], CoreType::Array(ref e) if matches!(**e, CoreType::String)));
            assert!(matches!(parameters[1], CoreType::Int64));
            assert!(matches!(return_types[0], CoreType::Generic { ref type_args, .. } if matches!(type_args[0], CoreType::String)));
        }
        other => panic!("unexpected {other:?}"),
    }
}

#[test]
fn other_variables_are_kept() {
    let other = CoreType::Variable(TypeVar { id: 7, name: "U".to_string() });
    assert!(matches!(bind_array_signature(&other, &CoreType::Int32), CoreType::Variable(ref v) if v.id == 7));
    assert!(matches!(bind_array_signature(&placeholder(), &CoreType::Boolean), CoreType::Boolean));
}
