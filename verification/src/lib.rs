//! Verified core of the Opalescent type system: type models, constant folding,
//! cast rules, affine-resource metadata and module resolution.

use vstd::prelude::*;

pub mod affine_aggregates;
pub mod affine_containment;
pub mod aggregate_barrier;
pub mod arithmetic;
pub mod array_signatures;
pub mod ast;
pub mod builtin_types;
pub mod builtins;
pub mod call_instantiation;
pub mod checker;
pub mod checker_helpers;
pub mod collection_exprs;
pub mod conditionals;
pub mod constraints;
pub mod declarations;
pub mod destructure;
pub mod environment;
pub mod error_families;
pub mod error_sets;
pub mod error_compatibility;
pub mod errors;
pub mod expression_metadata;
pub mod escape;
pub mod fallible_constructors;
pub mod generics;
pub mod guard_errors;
pub mod heap_class;
pub mod hot_reload;
pub mod memory;
pub mod module_resolver;
pub mod name_map;
pub mod propagation;
pub mod operators;
pub mod ownership;
pub mod patterns;
pub mod ref_rules;
pub mod refinements;
pub mod return_labels;
pub mod return_values;
pub mod substitution;
pub mod symbol_table;
pub mod terminal_metadata;
pub mod test_only_availability;
pub mod text;
pub mod token;
pub mod type_rules;
pub mod types;
pub mod unification;
pub mod unifiers;
pub mod using_cleanup;
pub mod value_escape;

verus! {

} // verus!
