//! Checking the bindings of a `let` destructure against the values and labels the
//! initializer returns.

use vstd::prelude::*;
use crate::ast::LetBinding;
use crate::checker_helpers::{is_type_mismatch, type_mismatch_error};
use crate::symbol_table::{symbol_model, SymbolInfo, SymbolModel, SymbolType, Visibility};
use crate::type_rules::{annotation_model, ast_type_to_core_type, compatible, converted, types_compatible};
use crate::types::{model_of, TypeModel};
use crate::errors::{diagnostic_span_of, TypeError};
use crate::text::{join7, str_eq};
use crate::token::Span;
use crate::type_rules::{decimal, decimal_string};
use crate::types::CoreType;

verus! {

/// The label binding `i` must carry: the returned label at `i`, or the binding's own name
/// where the initializer returns fewer labels.
pub open spec fn expected_label(bindings: Seq<LetBinding>, labels: Seq<String>, i: int) -> Seq<char> {
    if i < labels.len() {
        labels[i]@
    } else {
        bindings[i].name@
    }
}

/// The label a binding carries: its explicit returned label, or its name.
pub open spec fn actual_label(b: LetBinding) -> Seq<char> {
    match b.returned_label {
        Some(l) => l@,
        None => b.name@,
    }
}

/// Binding `i` does not carry the label it must.
pub open spec fn binding_mislabeled(bindings: Seq<LetBinding>, labels: Seq<String>, i: int) -> bool {
    actual_label(bindings[i]) != expected_label(bindings, labels, i)
}

/// Why binding `i` is mislabeled, phrased by whether it states its label explicitly.
pub open spec fn mislabel_reason(bindings: Seq<LetBinding>, labels: Seq<String>, i: int) -> Seq<char> {
    let head = if bindings[i].returned_label is Some {
        "explicit destructure labels verify intent and do not reorder returned values: expected label '"@
    } else {
        "destructure binding names must exactly match returned labels in order: expected label '"@
    };
    head + expected_label(bindings, labels, i) + "' at position "@ + decimal((i + 1) as nat) + ", found '"@
        + actual_label(bindings[i]) + "'"@
}

/// Validate a `let` destructure: one binding per returned value, each carrying, in order,
/// the label the initializer returns at its position (its name standing for its label).
pub fn validate_destructure_bindings(
    bindings: &[LetBinding],
    value_types: &[CoreType],
    returned_labels: &[String],
    span: Span,
) -> (r: Result<(), TypeError>)
    ensures
        value_types@.len() != bindings@.len() ==> (r matches Err(TypeError::ArityMismatch { expected, found, span: s })
            && expected == bindings@.len() && found == value_types@.len() && s == diagnostic_span_of(span)),
        value_types@.len() == bindings@.len() ==> (r is Ok <==> forall|i: int|
            0 <= i < bindings@.len() ==> !binding_mislabeled(bindings@, returned_labels@, i)),
        forall|k: int|
            value_types@.len() == bindings@.len() && 0 <= k < bindings@.len() && binding_mislabeled(
                bindings@,
                returned_labels@,
                k,
            ) && (forall|i: int| 0 <= i < k ==> !binding_mislabeled(bindings@, returned_labels@, i)) ==> (r matches Err(
                TypeError::ReturnLabelMismatch { expected, found, span: s },
            ) && expected@ == mislabel_reason(bindings@, returned_labels@, k) && found@ == actual_label(bindings@[k])
                && s == diagnostic_span_of(bindings@[k].span)),
{
    if value_types.len() != bindings.len() {
        return Err(
            TypeError::ArityMismatch {
                expected: bindings.len(),
                found: value_types.len(),
                span: TypeError::span_from_span(span),
            },
        );
    }
    let mut index: usize = 0;
    while index < bindings.len()
        invariant
            index <= bindings@.len(),
            value_types@.len() == bindings@.len(),
            forall|i: int| 0 <= i < index ==> !binding_mislabeled(bindings@, returned_labels@, i),
        decreases bindings@.len() - index,
    {
        let binding = &bindings[index];
        let expected_label: &str = if index < returned_labels.len() {
            returned_labels[index].as_str()
        } else {
            binding.name.as_str()
        };
        let actual_label: &str = match &binding.returned_label {
            Some(l) => l.as_str(),
            None => binding.name.as_str(),
        };
        if !str_eq(actual_label, expected_label) {
            let head = if binding.returned_label.is_some() {
                "explicit destructure labels verify intent and do not reorder returned values: expected label '"
            } else {
                "destructure binding names must exactly match returned labels in order: expected label '"
            };
            let position = decimal_string(index + 1);
            let reason = join7(head, expected_label, "' at position ", position.as_str(), ", found '", actual_label, "'");
            proof {
                reveal_strlit("explicit destructure labels verify intent and do not reorder returned values: expected label '");
                reveal_strlit("destructure binding names must exactly match returned labels in order: expected label '");
                reveal_strlit("' at position ");
                reveal_strlit(", found '");
                reveal_strlit("'");
                assert(binding_mislabeled(bindings@, returned_labels@, index as int));
                assert forall|k: int|
                    0 <= k < bindings@.len() && binding_mislabeled(bindings@, returned_labels@, k) && (forall|i: int|
                        0 <= i < k ==> !binding_mislabeled(bindings@, returned_labels@, i)) implies k == index by {
                    if k > index {
                        assert(binding_mislabeled(bindings@, returned_labels@, index as int));
                    }
                }
            }
            return Err(
                TypeError::ReturnLabelMismatch {
                    expected: reason,
                    found: String::from_str(actual_label),
                    span: TypeError::span_from_span(binding.span),
                },
            );
        }
        index = index + 1;
    }
    Ok(())
}

/// The binding's annotation, where it has one, is unknown or does not accept a value of type `t`.
pub open spec fn binding_rejects(b: LetBinding, t: TypeModel) -> bool {
    match b.type_annotation {
        Some(a) => match annotation_model(a) {
            Err(_) => true,
            Ok(m) => !compatible(m, t),
        },
        None => false,
    }
}

/// The error reports why the binding's annotation rejects a value of type `t`.
pub open spec fn binding_error(e: TypeError, b: LetBinding, t: TypeModel, initializer_span: Span) -> bool {
    match b.type_annotation {
        Some(a) => match annotation_model(a) {
            Err(f) => converted(Err(e), Err(f)),
            Ok(m) => is_type_mismatch(e, m, Some(a.span_of()), t, initializer_span),
        },
        None => false,
    }
}

/// The local symbol a destructure binding introduces for a value of type `t`.
pub open spec fn destructure_symbol(b: LetBinding, t: TypeModel) -> SymbolModel {
    SymbolModel {
        name: b.name@,
        symbol_type: if b.is_mutable {
            SymbolType::Variable
        } else {
            SymbolType::Constant
        },
        core_type: t,
        visibility: Visibility::Private,
        source_location: b.span,
        is_let_binding: true,
        is_mutable: b.is_mutable,
        read_count: 0,
        is_pure: false,
    }
}

/// `after` is `before` followed by the symbols of the first `k` bindings.
pub open spec fn registers_first(
    after: Seq<SymbolInfo>,
    before: Seq<SymbolInfo>,
    bindings: Seq<LetBinding>,
    value_types: Seq<CoreType>,
    k: int,
) -> bool {
    &&& after.len() == before.len() + k
    &&& after.take(before.len() as int) == before
    &&& forall|j: int| 0 <= j < k ==> symbol_model(#[trigger] after[before.len() + j]) == destructure_symbol(
        bindings[j],
        model_of(value_types[j]),
    )
}

/// Register the bindings of a destructure as local symbols, pairing each binding with the
/// value type at its position; a binding's annotation must be known and accept its value.
/// Symbols are appended to `symbols`, those of the bindings before a rejected one included.
pub fn register_destructure_bindings(
    symbols: &mut Vec<SymbolInfo>,
    bindings: &[LetBinding],
    value_types: &[CoreType],
    initializer_span: Span,
) -> (r: Result<(), TypeError>)
    ensures
        ({
            let n = if bindings@.len() <= value_types@.len() {
                bindings@.len() as int
            } else {
                value_types@.len() as int
            };
            &&& (forall|i: int| 0 <= i < n ==> !binding_rejects(bindings@[i], model_of(value_types@[i]))) ==> (r is Ok
                && registers_first(final(symbols)@, old(symbols)@, bindings@, value_types@, n))
            &&& forall|k: int|
                0 <= k < n && binding_rejects(bindings@[k], model_of(value_types@[k])) && (forall|i: int|
                    0 <= i < k ==> !binding_rejects(bindings@[i], model_of(value_types@[i]))) ==> (r matches Err(e)
                    && binding_error(e, bindings@[k], model_of(value_types@[k]), initializer_span) && registers_first(
                    final(symbols)@,
                    old(symbols)@,
                    bindings@,
                    value_types@,
                    k,
                ))
        }),
{
    let ghost before = symbols@;
    let n: usize = if bindings.len() <= value_types.len() {
        bindings.len()
    } else {
        value_types.len()
    };
    proof {
        assert(symbols@.take(before.len() as int) =~= before);
    }
    let mut i: usize = 0;
    while i < n
        invariant
            i <= n,
            n <= bindings@.len(),
            n <= value_types@.len(),
            before == old(symbols)@,
            forall|j: int| 0 <= j < i ==> !binding_rejects(bindings@[j], model_of(value_types@[j])),
            registers_first(symbols@, before, bindings@, value_types@, i as int),
        decreases n - i,
    {
        let binding = &bindings[i];
        let value_type = &value_types[i];
        match &binding.type_annotation {
            Some(annotation) => {
                match ast_type_to_core_type(annotation) {
                    Err(e) => {
                        proof {
                            assert(binding_rejects(bindings@[i as int], model_of(value_types@[i as int])));
                            assert forall|k: int|
                                0 <= k < n && binding_rejects(bindings@[k], model_of(value_types@[k])) && (forall|j: int|
                                    0 <= j < k ==> !binding_rejects(bindings@[j], model_of(value_types@[j]))) implies k
                                == i by {
                                if k > i {
                                    assert(binding_rejects(bindings@[i as int], model_of(value_types@[i as int])));
                                }
                            }
                        }
                        return Err(e);
                    },
                    Ok(annotated) => {
                        if !types_compatible(&annotated, value_type) {
                            let err = type_mismatch_error(&annotated, Some(annotation.span()), value_type, initializer_span);
                            proof {
                                assert(binding_rejects(bindings@[i as int], model_of(value_types@[i as int])));
                                assert forall|k: int|
                                    0 <= k < n && binding_rejects(bindings@[k], model_of(value_types@[k])) && (forall|j: int|
                                        0 <= j < k ==> !binding_rejects(bindings@[j], model_of(value_types@[j]))) implies k
                                    == i by {
                                    if k > i {
                                        assert(binding_rejects(bindings@[i as int], model_of(value_types@[i as int])));
                                    }
                                }
                            }
                            return Err(err);
                        }
                    },
                }
            },
            None => {},
        }
        let symbol_type = if binding.is_mutable {
            SymbolType::Variable
        } else {
            SymbolType::Constant
        };
        let ghost prev = symbols@;
        symbols.push(
            SymbolInfo {
                name: String::from_str(binding.name.as_str()),
                symbol_type,
                core_type: value_type.duplicate(),
                visibility: Visibility::Private,
                source_location: binding.span,
                is_let_binding: true,
                is_mutable: binding.is_mutable,
                read_count: 0,
                is_pure: false,
            },
        );
        proof {
            assert(symbols@.take(before.len() as int) =~= before);
            assert forall|j: int| 0 <= j < i + 1 implies symbol_model(#[trigger] symbols@[before.len() + j])
                == destructure_symbol(bindings@[j], model_of(value_types@[j])) by {
                if j < i {
                    assert(symbols@[before.len() + j] == prev[before.len() + j]);
                }
            }
        }
        i = i + 1;
    }
    Ok(())
}

} // verus!
