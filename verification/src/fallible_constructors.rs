//! Registry of runtime-backed fallible constructors: constructor types that lower
//! through a runtime function returning the canonical error ABI.

use vstd::prelude::*;
use crate::affine_aggregates::nominal_type;
use crate::error_families::{error_leaf_model, stdlib_error_core_type};
use crate::text::str_eq;
use crate::types::{lemma_models_of, model_of, models_of, CoreType, TypeModel};

verus! {

/// Resolved canonical type identity used for fallible constructor lookup.
#[derive(Debug, Clone, Copy)]
pub struct CanonicalTypeIdentity<'core_type> {
    /// Canonical nominal type name after alias resolution.
    pub name: &'core_type str,
}

impl<'core_type> CanonicalTypeIdentity<'core_type> {
    /// Create an identity from a canonical nominal type name.
    pub fn new(name: &'core_type str) -> (r: Self)
        ensures
            r.name == name,
    {
        CanonicalTypeIdentity { name }
    }

    /// Extract a lookup identity from a resolved core type: a nominal type without
    /// type arguments.
    pub fn from_core_type(core_type: &'core_type CoreType) -> (r: Option<Self>)
        ensures
            match model_of(*core_type) {
                TypeModel::Generic { name, type_args } => if type_args.len() == 0 {
                    r matches Some(i) && i.name@ == name
                } else {
                    r is None
                },
                _ => r is None,
            },
    {
        match core_type {
            CoreType::Generic { name, type_args } => {
                proof {
                    lemma_models_of(type_args@);
                }
                if type_args.len() == 0 {
                    Some(CanonicalTypeIdentity::new(name.as_str()))
                } else {
                    None
                }
            },
            _ => None,
        }
    }
}

/// Metadata describing how a registered fallible constructor lowers.
#[derive(Debug, Clone, Copy)]
pub struct FallibleConstructorLowering {
    /// Runtime function symbol used during code generation.
    pub runtime_symbol: &'static str,
    /// Canonical result aggregate field index containing the error pointer.
    pub error_field_index: u32,
}

/// Ordered required field metadata for a registered fallible constructor.
#[derive(Debug)]
pub struct FallibleConstructorField {
    /// Source-level field name accepted by constructor syntax.
    pub name: &'static str,
    /// Expected core type for the field expression.
    pub core_type: CoreType,
}

/// A fallible constructor registry entry.
#[derive(Debug)]
pub struct FallibleConstructorEntry {
    /// Canonical constructor result type identity used for lookup.
    pub canonical_result_type_name: &'static str,
    /// Runtime function symbol used during lowering.
    pub runtime_symbol: &'static str,
    /// Ordered required field schema in ABI call order.
    pub required_fields: Vec<FallibleConstructorField>,
    /// Canonical success type returned on the happy path.
    pub success_type: CoreType,
    /// Canonical error types returned on the error path.
    pub error_types: Vec<CoreType>,
    /// Lowering metadata shared with code generation.
    pub lowering: FallibleConstructorLowering,
}

/// The `FrameClock` constructor: `frame_clock_new(frames_per_second: int32)`, failing
/// with `InvalidFrameRateError`, its error pointer in result field 1.
pub open spec fn is_frame_clock_entry(e: FallibleConstructorEntry) -> bool {
    &&& e.canonical_result_type_name@ == "FrameClock"@
    &&& e.runtime_symbol@ == "frame_clock_new"@
    &&& e.required_fields@.len() == 1
    &&& e.required_fields@[0].name@ == "frames_per_second"@
    &&& model_of(e.required_fields@[0].core_type) == TypeModel::Int32
    &&& model_of(e.success_type) == (TypeModel::Generic { name: "FrameClock"@, type_args: Seq::empty() })
    &&& models_of(e.error_types@) == seq![error_leaf_model("InvalidFrameRateError"@)]
    &&& e.lowering.runtime_symbol@ == "frame_clock_new"@
    &&& e.lowering.error_field_index == 1
}

/// Build the `FrameClock` registry entry.
pub fn frame_clock_entry() -> (r: FallibleConstructorEntry)
    ensures
        is_frame_clock_entry(r),
{
    let error_types = vec![stdlib_error_core_type("InvalidFrameRateError")];
    proof {
        lemma_models_of(error_types@);
        assert(models_of(error_types@) =~= seq![error_leaf_model("InvalidFrameRateError"@)]);
    }
    FallibleConstructorEntry {
        canonical_result_type_name: "FrameClock",
        runtime_symbol: "frame_clock_new",
        required_fields: vec![FallibleConstructorField { name: "frames_per_second", core_type: CoreType::Int32 }],
        success_type: nominal_type("FrameClock"),
        error_types,
        lowering: FallibleConstructorLowering { runtime_symbol: "frame_clock_new", error_field_index: 1 },
    }
}

/// Build the production fallible-constructor registry.
pub fn production_registry() -> (r: Vec<FallibleConstructorEntry>)
    ensures
        r@.len() == 1,
        is_frame_clock_entry(r@[0]),
{
    vec![frame_clock_entry()]
}

/// The active registry entries.
fn registry_entries() -> (r: Vec<FallibleConstructorEntry>)
    ensures
        r@.len() == 1,
        is_frame_clock_entry(r@[0]),
{
    production_registry()
}

/// Look up a fallible constructor entry by resolved canonical type identity.
pub fn lookup_fallible_constructor(identity: CanonicalTypeIdentity<'_>) -> (r: Option<FallibleConstructorEntry>)
    ensures
        r is Some <==> identity.name@ == "FrameClock"@,
        r matches Some(e) ==> is_frame_clock_entry(e),
{
    let mut entries = registry_entries();
    let mut found: Option<FallibleConstructorEntry> = None;
    while entries.len() > 0
        invariant
            entries@.len() <= 1,
            entries@.len() == 1 ==> is_frame_clock_entry(entries@[0]) && found is None,
            entries@.len() == 0 ==> (found is Some <==> identity.name@ == "FrameClock"@),
            found matches Some(e) ==> is_frame_clock_entry(e),
        decreases entries@.len(),
    {
        let entry = entries.remove(0);
        if found.is_none() && str_eq(entry.canonical_result_type_name, identity.name) {
            found = Some(entry);
        }
    }
    found
}

} // verus!
