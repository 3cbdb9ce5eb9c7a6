use opalescent_types::heap_class::{classify_core_type, classify_nominal_type, HeapClass};
use opalescent_types::types::CoreType;

fn nominal(name: &str) -> CoreType {
    CoreType::Generic {
        name: String::from(name),
        type_args: Vec::new(),
    }
}

#[test]
fn classifies_reference_counted_core_surfaces() {
    assert_eq!(classify_core_type(&CoreType::String), HeapClass::ReferenceCounted);
    assert_eq!(
        classify_core_type(&CoreType::Array(Box::new(CoreType::Int32))),
        HeapClass::ReferenceCounted
    );
}

#[test]
fn test_heap_class_classifies_string_and_array_children() {
    assert_eq!(classify_core_type(&CoreType::String), HeapClass::ReferenceCounted);
    assert_eq!(
        classify_core_type(&CoreType::Array(Box::new(CoreType::String))),
        HeapClass::ReferenceCounted
    );
}

#[test]
fn classifies_caller_owned_nominal_surfaces() {
    for label in ["Bytes", "FilesystemPath", "FileMetadata", "FilePermissions"] {
        assert_eq!(classify_nominal_type(label), Some(HeapClass::CallerOwned));
        assert_eq!(classify_core_type(&nominal(label)), HeapClass::CallerOwned);
    }
}

#[test]
fn classifies_runtime_managed_nominal_surfaces() {
    for label in ["StringBuilder", "FrameClock"] {
        assert_eq!(
            classify_nominal_type(label),
            Some(HeapClass::RuntimeManaged)
        );
        assert_eq!(classify_core_type(&nominal(label)), HeapClass::RuntimeManaged);
    }
}

#[test]
fn leaves_non_heap_values_inline_by_default() {
    assert_eq!(classify_core_type(&CoreType::Int32), HeapClass::InlineValue);
    assert_eq!(
        classify_core_type(&CoreType::Generic {
            name: String::from("UnclassifiedNominal"),
            type_args: Vec::new(),
        }),
        HeapClass::InlineValue
    );
    assert_eq!(classify_nominal_type("UnclassifiedNominal"), None);
}

#[test]
fn heap_allocation_follows_the_class() {
    assert!(!HeapClass::InlineValue.is_heap_allocated());
    assert!(HeapClass::ReferenceCounted.is_heap_allocated());
    assert!(HeapClass::CallerOwned.is_heap_allocated());
    assert!(HeapClass::RuntimeManaged.is_heap_allocated());
}
