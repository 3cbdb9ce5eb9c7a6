//! Checking the values of a return statement against the enclosing function's result
//! types: presence, arity, labeling and the per-value type reconciliation.

use vstd::prelude::*;
use crate::ast::{Expr, LiteralValue, ReturnValue};
use crate::checker_helpers::{
    coerce_literal_to_expected, coerced_literal_type, is_integer_model, is_integer_type, is_type_mismatch,
    opt_model, type_mismatch_error,
};
use crate::constraints::TypeConstraint;
use crate::errors::{diagnostic_span_of, TypeError};
use crate::return_labels::{label_outcome, LabelShape, ReturnContexts};
use crate::text::{names_of, owned};
use crate::token::Span;
use crate::type_rules::{compatible, types_compatible};
use crate::types::{model_of, CoreType, TypeModel};

verus! {

/// What a call returned through unchanged resolves to: its result types and labels.
#[derive(Debug)]
pub struct ResolvedReturn {
    /// Result types of the called function.
    pub return_types: Vec<CoreType>,
    /// Result labels of the called function (empty when unlabeled).
    pub return_labels: Vec<String>,
}

/// A returned value carries a (non-empty) label.
pub open spec fn is_labeled(v: ReturnValue) -> bool {
    v.label matches Some(l) && l@.len() > 0
}

/// The label text of a returned value.
pub open spec fn label_text(v: ReturnValue) -> Seq<char> {
    match v.label {
        Some(l) => l@,
        None => Seq::empty(),
    }
}

/// Number of labeled values.
pub open spec fn labeled_count(vs: Seq<ReturnValue>) -> nat
    decreases vs.len(),
{
    if vs.len() == 0 {
        0
    } else {
        labeled_count(vs.drop_last()) + if is_labeled(vs.last()) {
            1nat
        } else {
            0nat
        }
    }
}

/// Some but not all values are labeled.
pub open spec fn mixes_labels(vs: Seq<ReturnValue>) -> bool {
    0 < labeled_count(vs) && labeled_count(vs) != vs.len()
}

/// The return hands back the results of one unlabeled call unchanged.
pub open spec fn passes_through(vs: Seq<ReturnValue>) -> bool {
    vs.len() == 1 && !is_labeled(vs[0]) && vs[0].value is Call
}

/// Labels the return is checked with against the enclosing body's shape.
pub open spec fn effective_labels(vs: Seq<ReturnValue>, resolved: Option<&ResolvedReturn>) -> Seq<Seq<char>> {
    if passes_through(vs) {
        names_of(resolved->0.return_labels@)
    } else if labeled_count(vs) == 0 {
        Seq::empty()
    } else {
        vs.map_values(|v: ReturnValue| label_text(v))
    }
}

/// Type a value of type `found` is recorded with against `expected`, or `None` when
/// the two cannot be reconciled.
pub open spec fn reconciled(expected: TypeModel, value: Expr, found: TypeModel, coerce: bool) -> Option<TypeModel> {
    if compatible(expected, found) || found is Variable || expected is Variable {
        Some(found)
    } else if coerce && coerced_literal_type(expected, value, found) is Some {
        coerced_literal_type(expected, value, found)
    } else if is_integer_model(expected) && is_integer_model(found) {
        Some(expected)
    } else {
        None
    }
}

/// A void literal in a guard's else branch needs no type.
pub open spec fn skipped(value: Expr, skip_void: bool) -> bool {
    skip_void && value matches Expr::Literal { value: LiteralValue::Void, .. }
}

/// The values to reconcile one by one against the expected types.
pub ghost struct ReturnItems {
    pub expected: Seq<TypeModel>,
    pub exprs: Seq<Expr>,
    pub found: Seq<TypeModel>,
    pub coerce: bool,
    pub skip_void: bool,
}

/// The items of a return: for a pass-through call its result types, all located at the
/// call; otherwise each value with its own type.
pub open spec fn return_items(
    vs: Seq<ReturnValue>,
    value_types: Seq<CoreType>,
    expected: Seq<CoreType>,
    resolved: Option<&ResolvedReturn>,
    in_guard_else: bool,
) -> ReturnItems {
    if passes_through(vs) {
        ReturnItems {
            expected: expected.map_values(|t: CoreType| model_of(t)),
            exprs: Seq::new(expected.len(), |i: int| vs[0].value),
            found: resolved->0.return_types@.map_values(|t: CoreType| model_of(t)),
            coerce: false,
            skip_void: false,
        }
    } else {
        ReturnItems {
            expected: expected.map_values(|t: CoreType| model_of(t)),
            exprs: vs.map_values(|v: ReturnValue| v.value),
            found: value_types.map_values(|t: CoreType| model_of(t)),
            coerce: true,
            skip_void: in_guard_else,
        }
    }
}

/// Item `k` cannot be reconciled.
pub open spec fn item_fails(items: ReturnItems, k: int) -> bool {
    !skipped(items.exprs[k], items.skip_void) && reconciled(
        items.expected[k],
        items.exprs[k],
        items.found[k],
        items.coerce,
    ) is None
}

/// Equality constraints (expected, reconciled, value span) recorded for the first `n` items.
pub open spec fn emitted(items: ReturnItems, n: nat) -> Seq<(TypeModel, TypeModel, Span)>
    decreases n,
{
    if n == 0 {
        Seq::empty()
    } else {
        let k = n - 1;
        let prev = emitted(items, (n - 1) as nat);
        if skipped(items.exprs[k], items.skip_void) {
            prev
        } else {
            match reconciled(items.expected[k], items.exprs[k], items.found[k], items.coerce) {
                Some(t) => prev.push((items.expected[k], t, items.exprs[k].span_of())),
                None => prev,
            }
        }
    }
}

/// The constraint equates the two types of a triple, located at the value only.
pub open spec fn records(c: TypeConstraint, t: (TypeModel, TypeModel, Span)) -> bool {
    c matches TypeConstraint::Equality { left, right, left_span, right_span } && model_of(left) == t.0
        && model_of(right) == t.1 && left_span is None && right_span == Some(t.2)
}

/// `after` is `before` followed by one recorded constraint per triple.
pub open spec fn extends_with(
    after: Seq<TypeConstraint>,
    before: Seq<TypeConstraint>,
    triples: Seq<(TypeModel, TypeModel, Span)>,
) -> bool {
    &&& after.len() == before.len() + triples.len()
    &&& after.take(before.len() as int) == before
    &&& forall|j: int| 0 <= j < triples.len() ==> records(after[before.len() + j], #[trigger] triples[j])
}

/// Arity problem (expected, found) of a return, where there is one.
pub open spec fn arity_problem(
    vs: Seq<ReturnValue>,
    expected: Seq<CoreType>,
    resolved: Option<&ResolvedReturn>,
    in_guard_else: bool,
) -> Option<(nat, nat)> {
    if passes_through(vs) {
        if resolved->0.return_types@.len() != expected.len() {
            Some((expected.len(), resolved->0.return_types@.len()))
        } else {
            None
        }
    } else if vs.len() == 0 {
        if expected.len() == 1 && (model_of(expected[0]) == TypeModel::Unit || in_guard_else) {
            None
        } else {
            Some((expected.len(), 0nat))
        }
    } else if vs.len() != expected.len() {
        Some((expected.len(), vs.len()))
    } else {
        None
    }
}

/// Number of items a return reconciles once its arity is accepted.
pub open spec fn item_count(vs: Seq<ReturnValue>, expected: Seq<CoreType>) -> nat {
    if passes_through(vs) {
        expected.len()
    } else {
        vs.len()
    }
}

/// Shapes of the open bodies after a return with `labels` is checked.
pub open spec fn shapes_after(shapes: Seq<LabelShape>, labels: Seq<Seq<char>>) -> Seq<LabelShape> {
    if shapes.len() == 0 {
        shapes
    } else {
        shapes.update(shapes.len() - 1, label_outcome(shapes.last(), labels).0)
    }
}

/// Label mismatch (expected, found) of a return with `labels`, where there is one.
pub open spec fn label_problem(shapes: Seq<LabelShape>, labels: Seq<Seq<char>>) -> Option<(Seq<char>, Seq<char>)> {
    if shapes.len() == 0 {
        None
    } else {
        label_outcome(shapes.last(), labels).1
    }
}

/// The error is an arity mismatch with these counts.
pub open spec fn is_arity_mismatch(e: TypeError, expected: nat, found: nat, span: Span) -> bool {
    e matches TypeError::ArityMismatch { expected: x, found: f, span: s } && x == expected && f == found && s
        == diagnostic_span_of(span)
}

/// The error is a return label mismatch with these texts.
pub open spec fn is_label_mismatch(e: TypeError, expected: Seq<char>, found: Seq<char>, span: Span) -> bool {
    e matches TypeError::ReturnLabelMismatch { expected: x, found: f, span: s } && x@ == expected && f@ == found
        && s == diagnostic_span_of(span)
}

/// Reconcile the type of one returned value with the expected type.
fn reconcile(expected: &CoreType, value: &Expr, found: &CoreType, coerce: bool) -> (r: Option<CoreType>)
    ensures
        opt_model(r) == reconciled(model_of(*expected), *value, model_of(*found), coerce),
{
    if types_compatible(expected, found) || matches!(found, CoreType::Variable(_)) || matches!(
        expected,
        CoreType::Variable(_)
    ) {
        return Some(found.duplicate());
    }
    if coerce {
        match coerce_literal_to_expected(expected, value, found) {
            Some(adjusted) => {
                return Some(adjusted);
            },
            None => {},
        }
    }
    if is_integer_type(expected) && is_integer_type(found) {
        Some(expected.duplicate())
    } else {
        None
    }
}

/// Whether a value is the void literal.
fn is_void_literal(value: &Expr) -> (r: bool)
    ensures
        r == (value matches Expr::Literal { value: LiteralValue::Void, .. }),
{
    matches!(value, Expr::Literal { value: LiteralValue::Void, .. })
}

/// Whether a returned value carries a label.
fn has_label(v: &ReturnValue) -> (r: bool)
    ensures
        r == is_labeled(*v),
{
    match &v.label {
        Some(l) => l.as_str().unicode_len() > 0,
        None => false,
    }
}

/// Count the labeled values.
fn count_labeled(values: &[ReturnValue]) -> (r: usize)
    ensures
        r == labeled_count(values@),
{
    let mut n: usize = 0;
    let mut i: usize = 0;
    while i < values.len()
        invariant
            i <= values@.len(),
            n == labeled_count(values@.take(i as int)),
            n <= i,
        decreases values@.len() - i,
    {
        proof {
            assert(values@.take(i + 1).drop_last() =~= values@.take(i as int));
        }
        if has_label(&values[i]) {
            n = n + 1;
        }
        i = i + 1;
    }
    proof {
        assert(values@.take(values@.len() as int) =~= values@);
    }
    n
}

/// The labels of the values, in order.
fn value_labels(values: &[ReturnValue]) -> (r: Vec<String>)
    ensures
        names_of(r@) == values@.map_values(|v: ReturnValue| label_text(v)),
{
    let mut out: Vec<String> = Vec::new();
    let mut i: usize = 0;
    while i < values.len()
        invariant
            i <= values@.len(),
            out@.len() == i,
            forall|j: int| 0 <= j < i ==> #[trigger] out@[j]@ == label_text(values@[j]),
        decreases values@.len() - i,
    {
        let text = match &values[i].label {
            Some(l) => owned(l.as_str()),
            None => String::new(),
        };
        out.push(text);
        i = i + 1;
    }
    assert(names_of(out@) =~= values@.map_values(|v: ReturnValue| label_text(v)));
    out
}

/// A copy of a label list.
fn copy_names(labels: &Vec<String>) -> (r: Vec<String>)
    ensures
        names_of(r@) == names_of(labels@),
{
    let mut out: Vec<String> = Vec::new();
    let mut i: usize = 0;
    while i < labels.len()
        invariant
            i <= labels@.len(),
            out@.len() == i,
            forall|j: int| 0 <= j < i ==> #[trigger] out@[j]@ == labels@[j]@,
        decreases labels@.len() - i,
    {
        out.push(owned(labels[i].as_str()));
        i = i + 1;
    }
    assert(names_of(out@) =~= names_of(labels@));
    out
}

/// Reconcile items one by one, recording an equality constraint for each; stop at the
/// first item that cannot be reconciled.
fn reconcile_items(
    constraints: &mut Vec<TypeConstraint>,
    expected: &[CoreType],
    exprs: &[&Expr],
    found: &[CoreType],
    coerce: bool,
    skip_void: bool,
    Ghost(items): Ghost<ReturnItems>,
) -> (r: Result<(), TypeError>)
    requires
        expected@.len() == exprs@.len(),
        found@.len() == exprs@.len(),
        items.expected.len() == expected@.len(),
        items.exprs.len() == exprs@.len(),
        items.found.len() == found@.len(),
        forall|i: int| 0 <= i < expected@.len() ==> #[trigger] items.expected[i] == model_of(expected@[i]),
        forall|i: int| 0 <= i < exprs@.len() ==> #[trigger] items.exprs[i] == *exprs@[i],
        forall|i: int| 0 <= i < found@.len() ==> #[trigger] items.found[i] == model_of(found@[i]),
        items.coerce == coerce,
        items.skip_void == skip_void,
    ensures
        (forall|i: int| 0 <= i < expected@.len() ==> !item_fails(items, i)) ==> r is Ok && extends_with(
            final(constraints)@,
            old(constraints)@,
            emitted(items, expected@.len()),
        ),
        forall|k: int|
            0 <= k < expected@.len() && item_fails(items, k) && (forall|i: int| 0 <= i < k ==> !item_fails(items, i))
                ==> (r matches Err(e) && is_type_mismatch(e, items.expected[k], None, items.found[k], items.exprs[k].span_of())
                && extends_with(final(constraints)@, old(constraints)@, emitted(items, k as nat))),
{
    let ghost before = constraints@;
    proof {
        assert(constraints@.take(before.len() as int) =~= before);
        assert(emitted(items, 0) =~= Seq::<(TypeModel, TypeModel, Span)>::empty());
    }
    let mut i: usize = 0;
    while i < expected.len()
        invariant
            i <= expected@.len(),
            expected@.len() == exprs@.len(),
            found@.len() == exprs@.len(),
            items.expected.len() == expected@.len(),
            items.exprs.len() == exprs@.len(),
            items.found.len() == found@.len(),
            forall|j: int| 0 <= j < expected@.len() ==> #[trigger] items.expected[j] == model_of(expected@[j]),
            forall|j: int| 0 <= j < exprs@.len() ==> #[trigger] items.exprs[j] == *exprs@[j],
            forall|j: int| 0 <= j < found@.len() ==> #[trigger] items.found[j] == model_of(found@[j]),
            items.coerce == coerce,
            items.skip_void == skip_void,
            forall|j: int| 0 <= j < i ==> !item_fails(items, j),
            extends_with(constraints@, before, emitted(items, i as nat)),
            before == old(constraints)@,
        decreases expected@.len() - i,
    {
        let value = exprs[i];
        proof {
            assert(items.exprs[i as int] == *value);
            assert(items.expected[i as int] == model_of(expected@[i as int]));
            assert(items.found[i as int] == model_of(found@[i as int]));
        }
        if skip_void && is_void_literal(value) {
            proof {
                assert(emitted(items, (i + 1) as nat) == emitted(items, i as nat));
            }
            i = i + 1;
            continue;
        }
        match reconcile(&expected[i], value, &found[i], coerce) {
            None => {
                proof {
                    assert(item_fails(items, i as int));
                    assert forall|k: int|
                        0 <= k < expected@.len() && item_fails(items, k) && (forall|j: int|
                            0 <= j < k ==> !item_fails(items, j)) implies k == i by {
                        if k > i {
                            assert(item_fails(items, i as int));
                        }
                    }
                }
                let err = type_mismatch_error(&expected[i], None, &found[i], value.span());
                proof {
                    assert(is_type_mismatch(
                        err,
                        items.expected[i as int],
                        None,
                        items.found[i as int],
                        items.exprs[i as int].span_of(),
                    ));
                    assert(before == old(constraints)@);
                }
                return Err(err);
            },
            Some(t) => {
                let ghost prev = emitted(items, i as nat);
                let ghost triple = (items.expected[i as int], model_of(t), value.span_of());
                constraints.push(TypeConstraint::equality(expected[i].duplicate(), t, None, Some(value.span())));
                proof {
                    assert(emitted(items, (i + 1) as nat) == prev.push(triple));
                    assert(constraints@.take(before.len() as int) =~= before);
                    assert forall|j: int| 0 <= j < prev.push(triple).len() implies records(
                        constraints@[before.len() + j],
                        #[trigger] prev.push(triple)[j],
                    ) by {
                        if j < prev.len() {
                            assert(prev.push(triple)[j] == prev[j]);
                        }
                    }
                }
                i = i + 1;
            },
        }
    }
    Ok(())
}

/// Validate a return statement against the enclosing function's result types.
///
/// `value_types` holds the type of each returned value as the expression checker gave
/// it (a conditional value is typed against its expected result type); `resolved` is the
/// resolution of the call a single unlabeled call value hands back unchanged.
/// The equality constraints between expected and reconciled types are appended to
/// `constraints`, those of the values before a failing one included; the label shape of
/// the innermost open body is checked and fixed in `contexts`.
pub fn type_check_return(
    contexts: &mut ReturnContexts,
    constraints: &mut Vec<TypeConstraint>,
    values: &[ReturnValue],
    value_types: &[CoreType],
    expected_return: Option<&[CoreType]>,
    resolved: Option<&ResolvedReturn>,
    guard_else_depth: usize,
    span: Span,
) -> (r: Result<(), TypeError>)
    requires
        passes_through(values@) <==> resolved is Some,
        !passes_through(values@) ==> value_types@.len() == values@.len(),
    ensures
        expected_return is None ==> (r matches Err(e) && (e matches TypeError::InvalidOperation {
            operation,
            type_label,
            span: s,
        } && operation@ == "return outside of function"@ && type_label@ == "<unknown>"@ && s
            == diagnostic_span_of(span)) && final(contexts).shapes() == old(contexts).shapes()
            && final(constraints)@ == old(constraints)@),
        expected_return is Some && mixes_labels(values@) ==> (r matches Err(e) && is_label_mismatch(
            e,
            "all values labeled or all values unlabeled"@,
            "mixed labeled and unlabeled values in one return"@,
            span,
        ) && final(contexts).shapes() == old(contexts).shapes() && final(constraints)@ == old(constraints)@),
        expected_return is Some && !mixes_labels(values@) ==> ({
            let labels = effective_labels(values@, resolved);
            let expected = expected_return->0@;
            let arity = arity_problem(values@, expected, resolved, guard_else_depth > 0);
            let items = return_items(
                values@,
                value_types@,
                expected,
                resolved,
                guard_else_depth > 0,
            );
            let n = item_count(values@, expected);
            &&& final(contexts).shapes() == shapes_after(old(contexts).shapes(), labels)
            &&& label_problem(old(contexts).shapes(), labels) is Some ==> (r matches Err(e)
                && is_label_mismatch(e, (label_problem(old(contexts).shapes(), labels)->0).0,
                    (label_problem(old(contexts).shapes(), labels)->0).1, span)
                && final(constraints)@ == old(constraints)@)
            &&& label_problem(old(contexts).shapes(), labels) is None && arity is Some ==> (r matches Err(e)
                && is_arity_mismatch(e, (arity->0).0, (arity->0).1, span) && final(constraints)@ == old(constraints)@)
            &&& label_problem(old(contexts).shapes(), labels) is None && arity is None && (forall|i: int|
                0 <= i < n ==> !item_fails(items, i)) ==> r is Ok && extends_with(
                final(constraints)@,
                old(constraints)@,
                emitted(items, n),
            )
            &&& forall|k: int|
                label_problem(old(contexts).shapes(), labels) is None && arity is None && 0 <= k < n
                    && item_fails(items, k) && (forall|i: int| 0 <= i < k ==> !item_fails(items, i)) ==> (r matches Err(e)
                    && is_type_mismatch(e, items.expected[k], None, items.found[k], items.exprs[k].span_of())
                    && extends_with(final(constraints)@, old(constraints)@, emitted(items, k as nat)))
        }),
{
    let expected = match expected_return {
        Some(e) => e,
        None => {
            return Err(
                TypeError::InvalidOperation {
                    operation: owned("return outside of function"),
                    type_label: owned("<unknown>"),
                    span: TypeError::span_from_span(span),
                },
            );
        },
    };
    let pass_through = values.len() == 1 && !has_label(&values[0]) && matches!(values[0].value, Expr::Call { .. });
    let labeled = count_labeled(values);
    if labeled > 0 && labeled != values.len() {
        return Err(
            TypeError::ReturnLabelMismatch {
                expected: owned("all values labeled or all values unlabeled"),
                found: owned("mixed labeled and unlabeled values in one return"),
                span: TypeError::span_from_span(span),
            },
        );
    }
    let labels: Vec<String> = if pass_through {
        match resolved {
            Some(call) => copy_names(&call.return_labels),
            None => Vec::new(),
        }
    } else if labeled == 0 {
        Vec::new()
    } else {
        value_labels(values)
    };
    proof {
        if !pass_through && labeled == 0 {
            assert(names_of(labels@) =~= Seq::<Seq<char>>::empty());
        }
    }
    match contexts.ensure_return_label_mode(labels.as_slice(), span) {
        Err(e) => {
            return Err(e);
        },
        Ok(()) => {},
    }
    let ghost items = return_items(
        values@,
        value_types@,
        expected@,
        resolved,
        guard_else_depth > 0,
    );
    if pass_through {
        let call = match resolved {
            Some(call) => call,
            None => {
                return Ok(());
            },
        };
        if call.return_types.len() != expected.len() {
            return Err(
                TypeError::ArityMismatch {
                    expected: expected.len(),
                    found: call.return_types.len(),
                    span: TypeError::span_from_span(span),
                },
            );
        }
        let mut exprs: Vec<&Expr> = Vec::new();
        let mut i: usize = 0;
        while i < expected.len()
            invariant
                i <= expected@.len(),
                exprs@.len() == i,
                values@.len() == 1,
                forall|j: int| 0 <= j < i ==> *#[trigger] exprs@[j] == values@[0].value,
            decreases expected@.len() - i,
        {
            exprs.push(&values[0].value);
            i = i + 1;
        }
        return reconcile_items(
            constraints,
            expected,
            exprs.as_slice(),
            call.return_types.as_slice(),
            false,
            false,
            Ghost(items),
        );
    }
    if values.len() == 0 {
        if expected.len() == 1 && (matches!(expected[0], CoreType::Unit) || guard_else_depth > 0) {
            proof {
                assert(constraints@.take(constraints@.len() as int) =~= constraints@);
                assert(emitted(items, 0) =~= Seq::<(TypeModel, TypeModel, Span)>::empty());
            }
            return Ok(());
        }
        return Err(
            TypeError::ArityMismatch { expected: expected.len(), found: 0, span: TypeError::span_from_span(span) },
        );
    }
    if values.len() != expected.len() {
        return Err(
            TypeError::ArityMismatch {
                expected: expected.len(),
                found: values.len(),
                span: TypeError::span_from_span(span),
            },
        );
    }
    let mut exprs: Vec<&Expr> = Vec::new();
    let mut i: usize = 0;
    while i < values.len()
        invariant
            i <= values@.len(),
            exprs@.len() == i,
            forall|j: int| 0 <= j < i ==> *#[trigger] exprs@[j] == values@[j].value,
        decreases values@.len() - i,
    {
        exprs.push(&values[i].value);
        i = i + 1;
    }
    reconcile_items(
        constraints,
        expected,
        exprs.as_slice(),
        value_types,
        true,
        guard_else_depth > 0,
        Ghost(items),
    )
}

} // verus!
