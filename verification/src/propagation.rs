//! Whether the errors a propagated call or a `using` cleanup can produce are declared by
//! the enclosing function.

use vstd::prelude::*;
use crate::ast::Expr;
use crate::error_compatibility::declared_error_type_covers;
use crate::error_families::{covered_by, StdlibErrorFamily};
use crate::errors::{diagnostic_span_of, TypeError};
use crate::guard_errors::format_error_type_list;
use crate::token::Span;
use crate::types::{display, display_list, lemma_models_of, model_of, models_of, CoreType, TypeModel};
use crate::using_cleanup::CleanupRegistration;

verus! {

/// A declared error type covers an emitted one: the same type, or a declared family that
/// holds it.
pub open spec fn covers(families: Seq<StdlibErrorFamily>, emitted: TypeModel, declared: TypeModel) -> bool {
    emitted == declared || covered_by(families, display(emitted), display(declared))
}

/// Some declared error type covers `emitted`.
pub open spec fn covered_somewhere(families: Seq<StdlibErrorFamily>, emitted: TypeModel, declared: Seq<TypeModel>) -> bool {
    exists|j: int| 0 <= j < declared.len() && covers(families, emitted, #[trigger] declared[j])
}

/// Every emitted error type is covered by some declared one.
pub open spec fn all_covered(families: Seq<StdlibErrorFamily>, emitted: Seq<TypeModel>, declared: Seq<TypeModel>) -> bool {
    forall|i: int| 0 <= i < emitted.len() ==> #[trigger] covered_somewhere(families, emitted[i], declared)
}

/// How a list of error types is shown in diagnostics.
pub open spec fn error_list_text(s: Seq<TypeModel>) -> Seq<char> {
    if s.len() == 0 {
        "<none>"@
    } else {
        display_list(s)
    }
}

/// Whether some declared error type covers `emitted`.
fn covered_by_any(families: &[StdlibErrorFamily], emitted: &CoreType, declared: &[CoreType]) -> (r: bool)
    ensures
        r == covered_somewhere(families@, model_of(*emitted), models_of(declared@)),
{
    proof {
        lemma_models_of(declared@);
    }
    let ghost dm = models_of(declared@);
    let mut j: usize = 0;
    while j < declared.len()
        invariant
            j <= declared@.len(),
            dm == models_of(declared@),
            dm.len() == declared@.len(),
            forall|k: int| 0 <= k < declared@.len() ==> #[trigger] dm[k] == model_of(declared@[k]),
            forall|m: int| 0 <= m < j ==> !covers(families@, model_of(*emitted), #[trigger] dm[m]),
        decreases declared@.len() - j,
    {
        proof {
            assert(dm[j as int] == model_of(declared@[j as int]));
        }
        if declared_error_type_covers(families, emitted, &declared[j]) {
            proof {
                assert(covers(families@, model_of(*emitted), dm[j as int]));
            }
            return true;
        }
        j = j + 1;
    }
    false
}

/// Whether every emitted error type is covered by a declared one.
pub fn errors_covered(families: &[StdlibErrorFamily], emitted: &[CoreType], declared: &[CoreType]) -> (r: bool)
    ensures
        r == all_covered(families@, models_of(emitted@), models_of(declared@)),
{
    proof {
        lemma_models_of(emitted@);
        lemma_models_of(declared@);
    }
    let ghost em = models_of(emitted@);
    let ghost dm = models_of(declared@);
    let mut i: usize = 0;
    while i < emitted.len()
        invariant
            i <= emitted@.len(),
            em == models_of(emitted@),
            dm == models_of(declared@),
            em.len() == emitted@.len(),
            forall|k: int| 0 <= k < emitted@.len() ==> #[trigger] em[k] == model_of(emitted@[k]),
            forall|k: int| 0 <= k < i ==> #[trigger] covered_somewhere(families@, em[k], dm),
        decreases emitted@.len() - i,
    {
        proof {
            assert(em[i as int] == model_of(emitted@[i as int]));
        }
        if !covered_by_any(families, &emitted[i], declared) {
            proof {
                assert(!covered_somewhere(families@, em[i as int], dm));
            }
            return false;
        }
        i = i + 1;
    }
    true
}

/// The outcome of checking `emitted` errors against the enclosing function's declared
/// errors: outside an erroring function, not covered, or allowed.
pub open spec fn propagation_allowed(
    r: Result<(), TypeError>,
    families: Seq<StdlibErrorFamily>,
    declared: Option<Seq<TypeModel>>,
    function_span: Option<Span>,
    emitted: Seq<TypeModel>,
    span: Span,
    callee_span: Span,
) -> bool {
    match declared {
        Some(d) if d.len() > 0 => if all_covered(families, emitted, d) {
            r is Ok
        } else {
            r matches Err(TypeError::PropagateErrorMismatch { expected, found, span: s, callee_span: c })
                && expected@ == error_list_text(d) && found@ == error_list_text(emitted) && s == diagnostic_span_of(
                match function_span {
                    Some(f) => f,
                    None => span,
                },
            ) && c == diagnostic_span_of(callee_span)
        },
        _ => r matches Err(TypeError::PropagateOutsideErrorFunction { span: s }) && s == diagnostic_span_of(span),
    }
}

/// Check `emitted` errors against the declared errors of the enclosing function.
fn check_declared_errors(
    families: &[StdlibErrorFamily],
    current_fn_error_types: Option<&[CoreType]>,
    current_fn_span: Option<Span>,
    emitted: &[CoreType],
    span: Span,
    callee_span: Span,
) -> (r: Result<(), TypeError>)
    ensures
        propagation_allowed(
            r,
            families@,
            match current_fn_error_types {
                Some(d) => Some(models_of(d@)),
                None => None,
            },
            current_fn_span,
            models_of(emitted@),
            span,
            callee_span,
        ),
{
    let declared = match current_fn_error_types {
        Some(errors) => {
            if errors.len() == 0 {
                return Err(TypeError::PropagateOutsideErrorFunction { span: TypeError::span_from_span(span) });
            }
            errors
        },
        None => {
            return Err(TypeError::PropagateOutsideErrorFunction { span: TypeError::span_from_span(span) });
        },
    };
    if errors_covered(families, emitted, declared) {
        return Ok(());
    }
    let function_span = match current_fn_span {
        Some(f) => f,
        None => span,
    };
    Err(
        TypeError::PropagateErrorMismatch {
            expected: format_error_type_list(declared),
            found: format_error_type_list(emitted),
            span: TypeError::span_from_span(function_span),
            callee_span: TypeError::span_from_span(callee_span),
        },
    )
}

/// Check that the errors `error_types` of a propagated `call` are declared by the
/// enclosing function, whose declared errors and span are given (absent outside a function).
pub fn ensure_propagate_error_types_allowed(
    families: &[StdlibErrorFamily],
    current_fn_error_types: Option<&[CoreType]>,
    current_fn_span: Option<Span>,
    call: &Expr,
    error_types: &[CoreType],
    span: Span,
) -> (r: Result<(), TypeError>)
    ensures
        propagation_allowed(
            r,
            families@,
            match current_fn_error_types {
                Some(d) => Some(models_of(d@)),
                None => None,
            },
            current_fn_span,
            models_of(error_types@),
            span,
            call.span_of(),
        ),
{
    check_declared_errors(families, current_fn_error_types, current_fn_span, error_types, span, call.span())
}

/// Check that the errors a `using` binding's cleanup can produce are declared by the
/// enclosing function; a cleanup that cannot fail needs nothing.
pub fn ensure_using_cleanup_errors_allowed(
    families: &[StdlibErrorFamily],
    current_fn_error_types: Option<&[CoreType]>,
    current_fn_span: Option<Span>,
    registration: &CleanupRegistration,
    span: Span,
) -> (r: Result<(), TypeError>)
    ensures
        registration.cleanup_errors@.len() == 0 ==> r is Ok,
        registration.cleanup_errors@.len() > 0 ==> propagation_allowed(
            r,
            families@,
            match current_fn_error_types {
                Some(d) => Some(models_of(d@)),
                None => None,
            },
            current_fn_span,
            crate::using_cleanup::str_views(registration.cleanup_errors@).map_values(
                |n: Seq<char>| crate::error_families::error_leaf_model(n),
            ),
            span,
            span,
        ),
{
    let cleanup_errors = registration.cleanup_error_types();
    if cleanup_errors.len() == 0 {
        proof {
            crate::types::lemma_models_of(cleanup_errors@);
        }
        return Ok(());
    }
    proof {
        crate::types::lemma_models_of(cleanup_errors@);
    }
    check_declared_errors(families, current_fn_error_types, current_fn_span, cleanup_errors.as_slice(), span, span)
}

} // verus!
