//! Where an affine or borrowed value may go: values holding affine state escape only
//! as fresh acquisitions or freshly sealed aggregates, and aggregate constructor fields
//! must fill declared slots with fresh acquisitions of the declared obligation type.

use vstd::prelude::*;
use crate::affine_aggregates::{declares_slot, first_slot_index, AffineAggregateSpec};
use crate::affine_containment::{contains_affine, core_type_contains_affine_resource, tables_wf};
use crate::aggregate_barrier::{aggregate_error, AffineAggregateBarrier};
use crate::ast::{ConstructorField, Expr};
use crate::errors::{is_constraint_error, TypeError};
use crate::escape::{check_affine_or_borrow_escape, escape_of, first_of, reports_escape};
use crate::name_map::NameMap;
use crate::ownership::OwnershipState;
use crate::ref_rules::{
    affine_escape_error, affine_escape_reason, is_borrow_escape_shape, is_direct_borrow_escape_shape,
    is_fresh_call_result, is_new_owner_call_result,
};
use crate::text::{join5, join7, str_eq};
use crate::types::{display, model_of, CoreType, TypeModel};

verus! {

/// Every field fills a declared slot from a fresh acquisition.
pub open spec fn fields_fill_slots(spec: AffineAggregateSpec, fields: Seq<ConstructorField>) -> bool {
    forall|i: int| #![trigger fields[i]] 0 <= i < fields.len() ==> declares_slot(spec, fields[i].name@) && is_fresh_call_result(
        fields[i].value,
    )
}

/// `e` constructs the registered aggregate `t` by its type name, every field filling a
/// declared slot from a fresh acquisition.
pub open spec fn aggregate_constructor_result(specs: Map<Seq<char>, AffineAggregateSpec>, e: Expr, t: TypeModel) -> bool {
    match t {
        TypeModel::Generic { name, .. } => specs.contains_key(name) && match e {
            Expr::Constructor { callee, fields, .. } => match *callee {
                Expr::Identifier { name: constructor, .. } => constructor@ == specs[name].type_label@ && fields_fill_slots(
                    specs[name],
                    fields@,
                ),
                _ => false,
            },
            _ => false,
        },
        _ => false,
    }
}

/// Whether every field fills a declared slot from a fresh acquisition.
fn fields_fill_declared_slots(spec: &AffineAggregateSpec, fields: &Vec<ConstructorField>) -> (r: bool)
    ensures
        r == fields_fill_slots(*spec, fields@),
{
    let mut i: usize = 0;
    while i < fields.len()
        invariant
            i <= fields@.len(),
            forall|j: int| #![trigger fields@[j]] 0 <= j < i ==> declares_slot(*spec, fields@[j].name@) && is_fresh_call_result(
                fields@[j].value,
            ),
        decreases fields@.len() - i,
    {
        let declared = spec.has_slot(fields[i].name.as_str());
        let fresh = is_new_owner_call_result(&fields[i].value);
        if !(declared && fresh) {
            return false;
        }
        proof {
            assert(declares_slot(*spec, fields@[i as int].name@));
            assert(is_fresh_call_result(fields@[i as int].value));
        }
        i = i + 1;
    }
    true
}

/// Whether `expr` constructs the registered aggregate `value_type` from fresh slots.
pub fn is_affine_aggregate_constructor_result(barrier: &AffineAggregateBarrier, expr: &Expr, value_type: &CoreType) -> (r:
    bool)
    requires
        barrier.wf(),
    ensures
        r == aggregate_constructor_result(barrier.specs(), *expr, model_of(*value_type)),
{
    let name = match value_type {
        CoreType::Generic { name, .. } => name,
        _ => {
            return false;
        },
    };
    let spec = match barrier.aggregate_spec(name.as_str()) {
        Some(s) => s,
        None => {
            return false;
        },
    };
    let (callee, fields) = match expr {
        Expr::Constructor { callee, fields, .. } => (callee, fields),
        _ => {
            return false;
        },
    };
    let constructor = match &**callee {
        Expr::Identifier { name, .. } => name,
        _ => {
            return false;
        },
    };
    if !str_eq(constructor.as_str(), spec.type_label.as_str()) {
        return false;
    }
    fields_fill_declared_slots(spec, fields)
}

/// Whether a value may initialize a new owner binding: a fresh acquisition, or a
/// freshly sealed registered aggregate.
pub fn is_fresh_owner_binding_result(barrier: &AffineAggregateBarrier, expr: &Expr, value_type: &CoreType) -> (r: bool)
    requires
        barrier.wf(),
    ensures
        r == (is_fresh_call_result(*expr) || aggregate_constructor_result(barrier.specs(), *expr, model_of(*value_type))),
{
    is_new_owner_call_result(expr) || is_affine_aggregate_constructor_result(barrier, expr, value_type)
}

/// The reason reported for an aggregate field naming an undeclared slot.
pub open spec fn undeclared_slot_reason(spec: AffineAggregateSpec, field: Seq<char>) -> Seq<char> {
    "transactional affine aggregate '"@ + spec.type_label@ + "' has no declared slot '"@ + field + "'"@
}

/// The reason reported for an aggregate slot not filled from a fresh acquisition.
pub open spec fn stale_slot_reason(spec: AffineAggregateSpec, field: Seq<char>) -> Seq<char> {
    "transactional affine aggregate '"@ + spec.type_label@ + "' slot '"@ + field
        + "' must be initialized from a fresh acquisition"@
}

/// The reason reported for an aggregate slot filled with another obligation type.
pub open spec fn slot_type_reason(spec: AffineAggregateSpec, field: Seq<char>, expected: Seq<char>, found: Seq<char>) -> Seq<
    char,
> {
    "transactional affine aggregate '"@ + spec.type_label@ + "' slot '"@ + field + "' expected obligation '"@ + expected
        + "', found '"@ + found + "'"@
}

/// Decide whether a constructor field holding affine state may be stored in the
/// registered aggregate `owner_name`: `Ok(false)` when the field holds no affine state or
/// the owner is no registered aggregate; `Ok(true)` when it fills a declared slot from
/// a fresh acquisition of the declared obligation type; otherwise the violated rule.
pub fn allow_affine_aggregate_constructor_field(
    barrier: &AffineAggregateBarrier,
    ownership: &OwnershipState,
    adt_fields: &NameMap<NameMap<CoreType>>,
    adt_variants: &NameMap<Vec<String>>,
    owner_name: &str,
    field_name: &str,
    field_value: &Expr,
    field_type: &CoreType,
) -> (r: Result<bool, TypeError>)
    requires
        barrier.wf(),
        ownership.wf(),
        tables_wf(adt_fields, adt_variants),
    ensures
        ({
            let affine = contains_affine(
                ownership.model().affine_resource_types,
                adt_fields@,
                adt_variants@,
                model_of(*field_type),
            );
            let specs = barrier.specs();
            if !affine || !specs.contains_key(owner_name@) {
                r == Ok::<bool, TypeError>(false)
            } else {
                let spec = specs[owner_name@];
                let span = field_value.span_of();
                if !declares_slot(spec, field_name@) {
                    r matches Err(e) && is_constraint_error(e, undeclared_slot_reason(spec, field_name@), span)
                } else if !is_fresh_call_result(*field_value) {
                    r matches Err(e) && is_constraint_error(e, stale_slot_reason(spec, field_name@), span)
                } else if spec.slots@[first_slot_index(spec, field_name@)].type_label@ != display(model_of(*field_type)) {
                    r matches Err(e) && is_constraint_error(
                        e,
                        slot_type_reason(
                            spec,
                            field_name@,
                            spec.slots@[first_slot_index(spec, field_name@)].type_label@,
                            display(model_of(*field_type)),
                        ),
                        span,
                    )
                } else {
                    r == Ok::<bool, TypeError>(true)
                }
            }
        }),
{
    if !core_type_contains_affine_resource(ownership, adt_fields, adt_variants, field_type) {
        return Ok(false);
    }
    let spec = match barrier.aggregate_spec(owner_name) {
        Some(s) => s,
        None => {
            return Ok(false);
        },
    };
    if !spec.has_slot(field_name) {
        return Err(aggregate_error(
            join5(
                "transactional affine aggregate '",
                spec.type_label.as_str(),
                "' has no declared slot '",
                field_name,
                "'",
            ),
            field_value.span(),
        ));
    }
    if !is_new_owner_call_result(field_value) {
        return Err(aggregate_error(
            join5(
                "transactional affine aggregate '",
                spec.type_label.as_str(),
                "' slot '",
                field_name,
                "' must be initialized from a fresh acquisition",
            ),
            field_value.span(),
        ));
    }
    match spec.slot_type(field_name) {
        Some(expected) => {
            let found = field_type.display_name();
            if !str_eq(expected, found.as_str()) {
                let mut reason = join7(
                    "transactional affine aggregate '",
                    spec.type_label.as_str(),
                    "' slot '",
                    field_name,
                    "' expected obligation '",
                    expected,
                    "', found '",
                );
                reason.append(found.as_str());
                reason.append("'");
                return Err(aggregate_error(reason, field_value.span()));
            }
        },
        None => {},
    }
    Ok(true)
}

/// Reject a value that would store, return or capture an owner or a borrow: a value
/// holding affine state may leave only as a fresh acquisition or sealed aggregate (when
/// `allow_new_owner_call`), and otherwise is reported at its first escaping binding or
/// as a whole; a value of a borrow-carrying shape is checked for escaping bindings.
pub fn check_value_escape(
    barrier: &AffineAggregateBarrier,
    ownership: &OwnershipState,
    adt_fields: &NameMap<NameMap<CoreType>>,
    adt_variants: &NameMap<Vec<String>>,
    expr: &Expr,
    value_type: &CoreType,
    context_description: &str,
    allow_new_owner_call: bool,
) -> (r: Result<(), TypeError>)
    requires
        barrier.wf(),
        ownership.wf(),
        tables_wf(adt_fields, adt_variants),
    ensures
        reports_escape(
            r,
            if contains_affine(ownership.model().affine_resource_types, adt_fields@, adt_variants@, model_of(*value_type)) {
                if allow_new_owner_call && (is_fresh_call_result(*expr) || aggregate_constructor_result(
                    barrier.specs(),
                    *expr,
                    model_of(*value_type),
                )) {
                    None
                } else {
                    first_of(
                        escape_of(ownership.model(), *expr, context_description@),
                        Some(
                            (
                                affine_escape_reason("<expression>"@, display(model_of(*value_type)), context_description@),
                                expr.span_of(),
                            ),
                        ),
                    )
                }
            } else if is_borrow_escape_shape(*expr) {
                escape_of(ownership.model(), *expr, context_description@)
            } else {
                None
            },
        ),
{
    if core_type_contains_affine_resource(ownership, adt_fields, adt_variants, value_type) {
        if allow_new_owner_call && is_fresh_owner_binding_result(barrier, expr, value_type) {
            return Ok(());
        }
        match check_affine_or_borrow_escape(ownership, expr, context_description) {
            Err(e) => return Err(e),
            Ok(()) => {},
        }
        let shown = value_type.display_name();
        return Err(affine_escape_error("<expression>", shown.as_str(), context_description, expr.span()));
    }
    if is_direct_borrow_escape_shape(expr) {
        return check_affine_or_borrow_escape(ownership, expr, context_description);
    }
    Ok(())
}

/// `check_value_escape` without the fresh-owner allowance.
pub fn check_value_escape_in(
    barrier: &AffineAggregateBarrier,
    ownership: &OwnershipState,
    adt_fields: &NameMap<NameMap<CoreType>>,
    adt_variants: &NameMap<Vec<String>>,
    expr: &Expr,
    value_type: &CoreType,
    context_description: &str,
) -> (r: Result<(), TypeError>)
    requires
        barrier.wf(),
        ownership.wf(),
        tables_wf(adt_fields, adt_variants),
    ensures
        reports_escape(
            r,
            if contains_affine(ownership.model().affine_resource_types, adt_fields@, adt_variants@, model_of(*value_type)) {
                first_of(
                    escape_of(ownership.model(), *expr, context_description@),
                    Some(
                        (
                            affine_escape_reason("<expression>"@, display(model_of(*value_type)), context_description@),
                            expr.span_of(),
                        ),
                    ),
                )
            } else if is_borrow_escape_shape(*expr) {
                escape_of(ownership.model(), *expr, context_description@)
            } else {
                None
            },
        ),
{
    check_value_escape(barrier, ownership, adt_fields, adt_variants, expr, value_type, context_description, false)
}

} // verus!
