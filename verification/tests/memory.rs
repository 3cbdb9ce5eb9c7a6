use opalescent_types::types::CoreType;

#[test]
fn test_integer_type_sizes() {
    assert_eq!(CoreType::Int8.memory_layout().size, 1);
    assert_eq!(CoreType::Int16.memory_layout().size, 2);
    assert_eq!(CoreType::Int32.memory_layout().size, 4);
    assert_eq!(CoreType::Int64.memory_layout().size, 8);
}

#[test]
fn test_unsigned_integer_type_sizes() {
    assert_eq!(CoreType::UInt8.memory_layout().size, 1);
    assert_eq!(CoreType::UInt16.memory_layout().size, 2);
    assert_eq!(CoreType::UInt32.memory_layout().size, 4);
    assert_eq!(CoreType::UInt64.memory_layout().size, 8);
}

#[test]
fn test_float_type_sizes() {
    assert_eq!(CoreType::Float32.memory_layout().size, 4);
    assert_eq!(CoreType::Float64.memory_layout().size, 8);
}

#[test]
fn test_boolean_size() {
    assert_eq!(CoreType::Boolean.memory_layout().size, 1);
}

#[test]
fn test_integer_type_alignments() {
    assert_eq!(CoreType::Int8.memory_layout().align, 1);
    assert_eq!(CoreType::Int16.memory_layout().align, 2);
    assert_eq!(CoreType::Int32.memory_layout().align, 4);
    assert_eq!(CoreType::Int64.memory_layout().align, 8);
}

#[test]
fn array_element_type_is_only_for_arrays() {
    let array = CoreType::Array(Box::new(CoreType::Int16));
    assert!(matches!(array.array_element_type(), Some(CoreType::Int16)));
    assert!(CoreType::Int16.array_element_type().is_none());
}
