//! Typing of array literals and string interpolations over already-typed elements.

use vstd::prelude::*;
use crate::ast::{Expr, StringPart};
use crate::checker_helpers::{
    coerce_literal_to_expected, coerced_literal_type, invalid_operation_error, is_boolean_type,
    is_invalid_operation, is_numeric_type, is_string_type, is_type_mismatch, numeric_kind, type_mismatch_error,
};
use crate::constraints::TypeConstraint;
use crate::errors::TypeError;
use crate::text::{ends_with, has_suffix, str_eq};
use crate::token::Span;
use crate::type_rules::{compatible, types_compatible};
use crate::types::{model_of, CoreType, TypeModel};

verus! {

/// Whether `c` has the Unicode `Uppercase` property.
pub uninterp spec fn unicode_uppercase(c: char) -> bool;

/// Calls `char::is_uppercase`, which reports whether `c` has the Unicode `Uppercase`
/// property; the contract names that property and states it for ASCII letters.
#[verifier::external_body]
fn char_is_uppercase(c: char) -> (r: bool)
    ensures
        r == unicode_uppercase(c),
        'A' <= c <= 'Z' ==> r,
        'a' <= c <= 'z' ==> !r,
{
    c.is_uppercase()
}

/// A name reads as an error type: it ends in `Error` and starts with an uppercase letter.
pub open spec fn error_type_name(name: Seq<char>) -> bool {
    has_suffix(name, "Error"@) && name.len() > 0 && unicode_uppercase(name[0])
}

/// Whether a name reads as an error type name.
pub fn looks_like_error_type_name(name: &str) -> (r: bool)
    ensures
        r == error_type_name(name@),
{
    proof {
        reveal_strlit("Error");
    }
    if !ends_with(name, "Error") {
        return false;
    }
    if name.unicode_len() == 0 {
        return false;
    }
    char_is_uppercase(name.get_char(0))
}

/// A non-generic nominal type whose name reads as an error type.
pub open spec fn displayable_error(m: TypeModel) -> bool {
    m matches TypeModel::Generic { name, type_args } && type_args.len() == 0 && error_type_name(name)
}

/// Whether a type is a displayable nominal error type.
pub fn is_displayable_error_type(expr_type: &CoreType) -> (r: bool)
    ensures
        r == displayable_error(model_of(*expr_type)),
{
    match expr_type {
        CoreType::Generic { name, type_args } => {
            proof {
                crate::types::lemma_models_of(type_args@);
            }
            type_args.len() == 0 && looks_like_error_type_name(name.as_str())
        },
        _ => false,
    }
}

/// A guard error context all of whose error types are displayable.
pub open spec fn guard_context_displayable(m: TypeModel) -> bool {
    m matches TypeModel::Generic { name, type_args } && name == "GuardErrorContext"@ && forall|i: int|
        0 <= i < type_args.len() ==> displayable_error(#[trigger] type_args[i])
}

/// Whether a type is a guard error context that string interpolation can display.
pub fn is_guard_error_interpolation_type(expr_type: &CoreType) -> (r: bool)
    ensures
        r == guard_context_displayable(model_of(*expr_type)),
{
    match expr_type {
        CoreType::Generic { name, type_args } => {
            proof {
                reveal_strlit("GuardErrorContext");
                crate::types::lemma_models_of(type_args@);
            }
            if !str_eq(name.as_str(), "GuardErrorContext") {
                return false;
            }
            let ghost ms = crate::types::models_of(type_args@);
            assert(model_of(*expr_type) == (TypeModel::Generic { name: name@, type_args: ms }));
            let mut i: usize = 0;
            while i < type_args.len()
                invariant
                    i <= type_args@.len(),
                    ms.len() == type_args@.len(),
                    model_of(*expr_type) == (TypeModel::Generic { name: name@, type_args: ms }),
                    forall|j: int| 0 <= j < type_args@.len() ==> #[trigger] ms[j] == model_of(type_args@[j]),
                    forall|j: int| 0 <= j < i ==> displayable_error(#[trigger] ms[j]),
                decreases type_args@.len() - i,
            {
                proof {
                    assert(ms[i as int] == model_of(type_args@[i as int]));
                }
                if !is_displayable_error_type(&type_args[i]) {
                    proof {
                        assert(!displayable_error(ms[i as int]));
                        assert(0 <= i < ms.len());
                        let m = model_of(*expr_type);
                        assert(m is Generic);
                        assert(m->Generic_type_args == ms);
                        assert(guard_context_displayable(m) ==> displayable_error(m->Generic_type_args[i as int]));
                        assert(!guard_context_displayable(model_of(*expr_type)));
                    }
                    return false;
                }
                i = i + 1;
            }
            true
        },
        _ => false,
    }
}

/// A value of this type may appear inside a string interpolation.
pub open spec fn interpolable(m: TypeModel) -> bool {
    numeric_kind(m) is Some || m == TypeModel::Boolean || m == TypeModel::String || displayable_error(m)
        || guard_context_displayable(m)
}

/// Part `i` is an interpolated expression whose type cannot be displayed.
pub open spec fn part_rejected(parts: Seq<StringPart>, types: Seq<CoreType>, i: int) -> bool {
    parts[i] is Expression && !interpolable(model_of(types[i]))
}

/// Validate each interpolated expression of a string, whose types are `part_types`
/// (aligned with `parts`; the entries for text parts are not read): only numbers,
/// booleans, strings and displayable error values may be interpolated.
pub fn type_check_string_interpolation(parts: &[StringPart], part_types: &[CoreType]) -> (r: Result<(), TypeError>)
    requires
        parts@.len() == part_types@.len(),
    ensures
        r is Ok <==> forall|i: int| 0 <= i < parts@.len() ==> !part_rejected(parts@, part_types@, i),
        forall|k: int|
            0 <= k < parts@.len() && part_rejected(parts@, part_types@, k) && (forall|i: int|
                0 <= i < k ==> !part_rejected(parts@, part_types@, i)) ==> (r matches Err(e) && is_invalid_operation(
                e,
                "string interpolation"@,
                model_of(part_types@[k]),
                parts@[k]->Expression_0.span_of(),
            )),
{
    let mut i: usize = 0;
    while i < parts.len()
        invariant
            i <= parts@.len(),
            parts@.len() == part_types@.len(),
            forall|j: int| 0 <= j < i ==> !part_rejected(parts@, part_types@, j),
        decreases parts@.len() - i,
    {
        match &parts[i] {
            StringPart::Expression(expr) => {
                let expr_type = &part_types[i];
                if !(is_numeric_type(expr_type) || is_boolean_type(expr_type) || is_string_type(expr_type)
                    || is_displayable_error_type(expr_type) || is_guard_error_interpolation_type(expr_type)) {
                    proof {
                        reveal_strlit("string interpolation");
                        assert(part_rejected(parts@, part_types@, i as int));
                        assert forall|k: int|
                            0 <= k < parts@.len() && part_rejected(parts@, part_types@, k) && (forall|j: int|
                                0 <= j < k ==> !part_rejected(parts@, part_types@, j)) implies k == i by {
                            if k > i {
                                assert(part_rejected(parts@, part_types@, i as int));
                            }
                        }
                    }
                    return Err(invalid_operation_error("string interpolation", expr_type, expr.span()));
                }
            },
            StringPart::Text(_) => {},
        }
        i = i + 1;
    }
    Ok(())
}

/// Element type of an array after its first `n` elements (with the span of the element
/// that fixed it), the constraints (current, reconciled, current span, element span)
/// recorded on the way, or the first mismatch (its index, expected type and span,
/// found type and span).
pub ghost enum ArrayFold {
    Folded { element: Option<(TypeModel, Span)>, recorded: Seq<(TypeModel, TypeModel, Span, Span)> },
    Mismatch { index: int, expected: TypeModel, expected_span: Span, found: TypeModel, found_span: Span, recorded: Seq<(TypeModel, TypeModel, Span, Span)> },
}

/// Fold the first `n` elements of an array literal: the first element fixes the element
/// type; each later one is reconciled with it, directly, by coercing the element if it is
/// a literal, or by coercing the first element if that is a literal.
pub open spec fn array_fold(elements: Seq<Expr>, types: Seq<TypeModel>, n: nat) -> ArrayFold
    decreases n,
{
    if n == 0 {
        ArrayFold::Folded { element: None, recorded: Seq::empty() }
    } else {
        let k = n - 1;
        match array_fold(elements, types, (n - 1) as nat) {
            ArrayFold::Folded { element: None, recorded } => ArrayFold::Folded {
                element: Some((types[k], elements[k].span_of())),
                recorded,
            },
            ArrayFold::Folded { element: Some((x, xs)), recorded } => {
                let t = types[k];
                let es = elements[k].span_of();
                if compatible(x, t) {
                    ArrayFold::Folded { element: Some((x, xs)), recorded: recorded.push((x, t, xs, es)) }
                } else if coerced_literal_type(x, elements[k], t) is Some {
                    let a = coerced_literal_type(x, elements[k], t)->0;
                    ArrayFold::Folded { element: Some((x, xs)), recorded: recorded.push((x, a, xs, es)) }
                } else if coerced_literal_type(t, elements[0], x) is Some {
                    let a = coerced_literal_type(t, elements[0], x)->0;
                    ArrayFold::Folded { element: Some((a, xs)), recorded: recorded.push((a, a, xs, es)) }
                } else {
                    ArrayFold::Mismatch { index: k, expected: x, expected_span: xs, found: t, found_span: es, recorded }
                }
            },
            m => m,
        }
    }
}

/// A mismatch ends the fold: later elements change nothing.
proof fn lemma_mismatch_persists(elements: Seq<Expr>, types: Seq<TypeModel>, k: nat, n: nat)
    requires
        k <= n,
        array_fold(elements, types, k) is Mismatch,
    ensures
        array_fold(elements, types, n) == array_fold(elements, types, k),
    decreases n,
{
    if n > k {
        lemma_mismatch_persists(elements, types, k, (n - 1) as nat);
    }
}

/// The constraint equates the two types of an entry, located at both spans.
pub open spec fn records_pair(c: TypeConstraint, t: (TypeModel, TypeModel, Span, Span)) -> bool {
    c matches TypeConstraint::Equality { left, right, left_span, right_span } && model_of(left) == t.0
        && model_of(right) == t.1 && left_span == Some(t.2) && right_span == Some(t.3)
}

/// `after` is `before` followed by one recorded constraint per entry.
pub open spec fn appends(
    after: Seq<TypeConstraint>,
    before: Seq<TypeConstraint>,
    entries: Seq<(TypeModel, TypeModel, Span, Span)>,
) -> bool {
    &&& after.len() == before.len() + entries.len()
    &&& after.take(before.len() as int) == before
    &&& forall|j: int| 0 <= j < entries.len() ==> records_pair(after[before.len() + j], #[trigger] entries[j])
}

/// Type an array literal whose elements were typed as `element_types`, recording an
/// equality constraint between the element type and each later element; an empty literal
/// takes `fresh_element`, a type variable of the caller's supply.
pub fn type_check_array_expr(
    constraints: &mut Vec<TypeConstraint>,
    elements: &[Expr],
    element_types: &[CoreType],
    fresh_element: CoreType,
) -> (r: Result<CoreType, TypeError>)
    requires
        elements@.len() == element_types@.len(),
    ensures
        ({
            let fold = array_fold(elements@, element_types@.map_values(|t: CoreType| model_of(t)), elements@.len());
            match fold {
                ArrayFold::Folded { element, recorded } => (r matches Ok(t) && model_of(t) == TypeModel::Array(
                    Box::new(
                        match element {
                            Some(p) => p.0,
                            None => model_of(fresh_element),
                        },
                    ),
                )) && appends(final(constraints)@, old(constraints)@, recorded),
                ArrayFold::Mismatch { index, expected, expected_span, found, found_span, recorded } => (r matches Err(
                    e,
                ) && is_type_mismatch(e, expected, Some(expected_span), found, found_span)) && appends(
                    final(constraints)@,
                    old(constraints)@,
                    recorded,
                ),
            }
        }),
{
    let ghost types = element_types@.map_values(|t: CoreType| model_of(t));
    let ghost before = constraints@;
    proof {
        assert(constraints@.take(before.len() as int) =~= before);
    }
    let mut element_type: Option<(CoreType, Span)> = None;
    let mut i: usize = 0;
    while i < elements.len()
        invariant
            i <= elements@.len(),
            elements@.len() == element_types@.len(),
            types == element_types@.map_values(|t: CoreType| model_of(t)),
            before == old(constraints)@,
            array_fold(elements@, types, i as nat) matches ArrayFold::Folded { element, recorded } && appends(
                constraints@,
                before,
                recorded,
            ) && (match element {
                None => element_type is None,
                Some(p) => element_type matches Some(q) && model_of(q.0) == p.0 && q.1 == p.1,
            }),
        decreases elements@.len() - i,
    {
        let element = &elements[i];
        let element_span = element.span();
        let element_core_type = &element_types[i];
        let ghost prev = array_fold(elements@, types, i as nat);
        proof {
            assert(types[i as int] == model_of(element_types@[i as int]));
        }
        match element_type {
            None => {
                element_type = Some((element_core_type.duplicate(), element_span));
            },
            Some((existing_type, existing_span)) => {
                let ghost recorded = prev->Folded_recorded;
                let (current, reconciled) = if types_compatible(&existing_type, element_core_type) {
                    (existing_type, element_core_type.duplicate())
                } else {
                    match coerce_literal_to_expected(&existing_type, element, element_core_type) {
                        Some(adjusted) => (existing_type, adjusted),
                        None => match coerce_literal_to_expected(element_core_type, &elements[0], &existing_type) {
                            Some(adjusted_existing) => (adjusted_existing.duplicate(), adjusted_existing),
                            None => {
                                let err = type_mismatch_error(
                                    &existing_type,
                                    Some(existing_span),
                                    element_core_type,
                                    element_span,
                                );
                                proof {
                                    assert(array_fold(elements@, types, (i + 1) as nat) is Mismatch);
                                    lemma_mismatch_persists(elements@, types, (i + 1) as nat, elements@.len());
                                }
                                return Err(err);
                            },
                        },
                    }
                };
                element_type = Some((current.duplicate(), existing_span));
                let ghost entry = (model_of(current), model_of(reconciled), existing_span, element_span);
                constraints.push(TypeConstraint::equality(current, reconciled, Some(existing_span), Some(element_span)));
                proof {
                    assert(constraints@.take(before.len() as int) =~= before);
                    assert forall|j: int| 0 <= j < recorded.push(entry).len() implies records_pair(
                        constraints@[before.len() + j],
                        #[trigger] recorded.push(entry)[j],
                    ) by {
                        if j < recorded.len() {
                            assert(recorded.push(entry)[j] == recorded[j]);
                        }
                    }
                }
            },
        }
        i = i + 1;
    }
    let resolved = match element_type {
        Some((core_type, _)) => core_type,
        None => fresh_element,
    };
    Ok(CoreType::Array(Box::new(resolved)))
}

} // verus!
