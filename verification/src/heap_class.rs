//! Canonical heap/ownership classification.

use vstd::prelude::*;
use crate::text::str_eq;
use crate::types::{CoreType, model_of, TypeModel};

verus! {

/// Canonical heap/ownership category for a language or runtime-facing type surface.
#[derive(Debug, Clone, Copy, PartialEq, Eq, Hash, Structural)]
pub enum HeapClass {
    /// Value is not a managed heap surface.
    InlineValue,
    /// Heap allocation tracked through the reference-counted memory model.
    ReferenceCounted,
    /// Heap allocation whose ownership is transferred directly to the caller.
    CallerOwned,
    /// Runtime-managed handle with process-lifetime cleanup.
    RuntimeManaged,
}

impl HeapClass {
    /// Return whether this category represents a heap-allocated surface.
    pub fn is_heap_allocated(self) -> (r: bool)
        ensures r == !(self is InlineValue),
    {
        !matches!(self, HeapClass::InlineValue)
    }
}


/// Heap category of a canonical nominal runtime type name, when recognized.
pub open spec fn nominal_heap_class(name: Seq<char>) -> Option<HeapClass> {
    if name == "Bytes"@ || name == "FilesystemPath"@ || name == "FileMetadata"@ || name
        == "FilePermissions"@ {
        Some(HeapClass::CallerOwned)
    } else if name == "StringBuilder"@ || name == "FrameClock"@ {
        Some(HeapClass::RuntimeManaged)
    } else {
        None
    }
}

/// Heap category of a type model.
pub open spec fn type_heap_class(m: TypeModel) -> HeapClass {
    match m {
        TypeModel::String | TypeModel::Array(_) => HeapClass::ReferenceCounted,
        TypeModel::Generic { name, type_args } => if type_args.len() == 0 {
            match nominal_heap_class(name) {
                Some(c) => c,
                None => HeapClass::InlineValue,
            }
        } else {
            HeapClass::InlineValue
        },
        _ => HeapClass::InlineValue,
    }
}

/// Classify a canonical nominal runtime type name when it is recognized.
pub fn classify_nominal_type(type_label: &str) -> (r: Option<HeapClass>)
    ensures
        r == nominal_heap_class(type_label@),
{
    if str_eq(type_label, "Bytes") || str_eq(type_label, "FilesystemPath") || str_eq(
        type_label,
        "FileMetadata",
    ) || str_eq(type_label, "FilePermissions") {
        Some(HeapClass::CallerOwned)
    } else if str_eq(type_label, "StringBuilder") || str_eq(type_label, "FrameClock") {
        Some(HeapClass::RuntimeManaged)
    } else {
        None
    }
}

/// Classify a resolved core type into its heap/ownership category.
pub fn classify_core_type(core_type: &CoreType) -> (r: HeapClass)
    ensures
        r == type_heap_class(model_of(*core_type)),
{
    match core_type {
        CoreType::String | CoreType::Array(_) => HeapClass::ReferenceCounted,
        CoreType::Generic { name, type_args } => {
            proof {
                crate::types::lemma_models_of(type_args@);
            }
            if type_args.len() == 0 {
                match classify_nominal_type(name.as_str()) {
                    Some(c) => c,
                    None => HeapClass::InlineValue,
                }
            } else {
                HeapClass::InlineValue
            }
        },
        _ => HeapClass::InlineValue,
    }
}

} // verus!
