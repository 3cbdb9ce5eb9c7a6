//! Compatibility between emitted and declared error types.

use vstd::prelude::*;
use crate::error_families::{covered_by, error_type_is_covered_by_declared_type, StdlibErrorFamily};
use crate::text::{contains, ends_with, has_infix, has_suffix, str_eq};
use crate::types::{display, model_of, CoreType};

verus! {

/// Return whether a declared error type covers an emitted error type: the same type,
/// or, by display name, a declared family containing the emitted leaf.
pub fn declared_error_type_covers(families: &[StdlibErrorFamily], emitted: &CoreType, declared: &CoreType) -> (r: bool)
    ensures
        r == (model_of(*emitted) == model_of(*declared) || covered_by(
            families@,
            display(model_of(*emitted)),
            display(model_of(*declared)),
        )),
{
    if emitted.equals(declared) {
        return true;
    }
    let emitted_name = emitted.display_name();
    let declared_name = declared.display_name();
    error_type_is_covered_by_declared_type(families, emitted_name.as_str(), declared_name.as_str())
}

/// Return whether root `Error` may inspect a nominal error value.
pub fn root_error_accepts_nominal_error(
    left_name: &str,
    left_args: &[CoreType],
    right_name: &str,
    right_args: &[CoreType],
) -> (r: bool)
    ensures
        r == (left_name@ == "Error"@ && left_args@.len() == 0 && (right_name@ == "GuardErrorContext"@ || (
        right_args@.len() == 0 && (has_suffix(right_name@, "Error"@) || has_infix(right_name@, "Error."@))))),
{
    str_eq(left_name, "Error") && left_args.len() == 0 && (str_eq(right_name, "GuardErrorContext") || (
    right_args.len() == 0 && (ends_with(right_name, "Error") || contains(right_name, "Error."))))
}

} // verus!
