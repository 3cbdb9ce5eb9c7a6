//! Variant refinements (`value is Family.Variant into payload`) and `is` type narrowing
//! of conditions.

use vstd::prelude::*;
use crate::affine_aggregates::nominal_type;
use crate::ast::{BinaryOp, Expr};
use crate::environment::TypeEnvironment;
use crate::error_compatibility::declared_error_type_covers;
use crate::error_families::{covered_by, StdlibErrorFamily};
use crate::errors::{diagnostic_span_of, TypeError};
use crate::name_map::NameMap;
use crate::ref_rules::{direct_identifier, direct_identifier_name, unwrapped, unwrapped_expr};
use crate::text::{join3, names_contain, names_of, owned, str_eq};
use crate::token::Span;
use crate::type_rules::{compatible, types_compatible};
use crate::types::{display, model_of, CoreType, TypeModel};

verus! {

/// Model of the nominal type `name` with no type arguments.
pub open spec fn nominal(name: Seq<char>) -> TypeModel {
    TypeModel::Generic { name, type_args: Seq::empty() }
}

/// Reason given when the right side of a refinement does not name `Type.Variant`.
pub open spec fn not_a_variant_reason() -> Seq<char> {
    "right side of `is ... into` must name a known Type.Variant"@
}

/// Reason given when `Type.Variant` is not a registered variant.
pub open spec fn unknown_variant_reason(owner: Seq<char>) -> Seq<char> {
    "unknown variant '"@ + owner + "' in `is ... into` refinement"@
}

/// The variant owner name `Family.Variant`.
pub open spec fn variant_owner(family: Seq<char>, member: Seq<char>) -> Seq<char> {
    family + "."@ + member
}

/// `owner` is a registered variant of `family`.
pub open spec fn is_registered_variant(
    variants: Map<Seq<char>, Vec<String>>,
    family: Seq<char>,
    owner: Seq<char>,
) -> bool {
    variants.contains_key(family) && names_of(variants[family]@).contains(owner)
}

/// The family, variant owner and span a refinement's variant expression names, or the
/// reason and span of the failure.
pub open spec fn variant_identity(
    variants: Map<Seq<char>, Vec<String>>,
    variant: Expr,
    fallback_span: Span,
) -> Result<(Seq<char>, Seq<char>, Span), (Seq<char>, Span)> {
    match unwrapped(variant) {
        Expr::Member { object, member, span } => match unwrapped(*object) {
            Expr::Identifier { name, .. } => {
                let owner = variant_owner(name@, member@);
                if is_registered_variant(variants, name@, owner) {
                    Ok((name@, owner, span))
                } else {
                    Err((unknown_variant_reason(owner), span))
                }
            },
            _ => Err((not_a_variant_reason(), span)),
        },
        _ => Err((not_a_variant_reason(), fallback_span)),
    }
}

/// The error is a constraint failure with this reason at this span.
pub open spec fn is_constraint_failure(e: TypeError, reason: Seq<char>, span: Span) -> bool {
    e matches TypeError::ConstraintSolvingFailed { reason: r, span: s } && r@ == reason && s == diagnostic_span_of(span)
}

/// Resolve the `Type.Variant` named on the right of a refinement to its family name,
/// variant owner name and span; the variant must be registered for the family.
pub fn refinement_variant_identity(
    adt_variants: &NameMap<Vec<String>>,
    variant: &Expr,
    fallback_span: Span,
) -> (r: Result<(String, String, Span), TypeError>)
    requires
        adt_variants.wf(),
    ensures
        match variant_identity(adt_variants@, *variant, fallback_span) {
            Ok(id) => r matches Ok(t) && t.0@ == id.0 && t.1@ == id.1 && t.2 == id.2,
            Err(f) => r matches Err(e) && is_constraint_failure(e, f.0, f.1),
        },
{
    let normalized_variant = unwrapped_expr(variant);
    let (object_expr, member_name, span) = match normalized_variant {
        Expr::Member { object, member, span } => (object, member, *span),
        _ => {
            proof {
                reveal_strlit("right side of `is ... into` must name a known Type.Variant");
            }
            return Err(
                TypeError::ConstraintSolvingFailed {
                    reason: owned("right side of `is ... into` must name a known Type.Variant"),
                    span: TypeError::span_from_span(fallback_span),
                },
            );
        },
    };
    let family_name = match unwrapped_expr(&**object_expr) {
        Expr::Identifier { name, .. } => name,
        _ => {
            proof {
                reveal_strlit("right side of `is ... into` must name a known Type.Variant");
            }
            return Err(
                TypeError::ConstraintSolvingFailed {
                    reason: owned("right side of `is ... into` must name a known Type.Variant"),
                    span: TypeError::span_from_span(span),
                },
            );
        },
    };
    let owner = join3(family_name.as_str(), ".", member_name.as_str());
    proof {
        reveal_strlit(".");
    }
    let registered = match adt_variants.get(family_name.as_str()) {
        Some(variants) => names_contain(variants, owner.as_str()),
        None => false,
    };
    if !registered {
        let reason = join3("unknown variant '", owner.as_str(), "' in `is ... into` refinement");
        return Err(TypeError::ConstraintSolvingFailed { reason, span: TypeError::span_from_span(span) });
    }
    Ok((owned(family_name.as_str()), owner, span))
}

/// What a condition refines: the refined variable, the payload binding (for an
/// `is ... into` refinement), the variant owner and the condition's span.
pub open spec fn variant_refinement(
    variants: Map<Seq<char>, Vec<String>>,
    condition: Expr,
) -> Option<(Seq<char>, Option<Seq<char>>, Seq<char>, Span)> {
    match unwrapped(condition) {
        Expr::Refinement { value, variant, payload_binding, span } => match (
            direct_identifier(*value),
            variant_identity(variants, *variant, span),
        ) {
            (Some(name), Ok(id)) => Some((name, Some(payload_binding@), id.1, span)),
            _ => None,
        },
        Expr::Binary { left, operator: BinaryOp::Is, right, span } => match (
            direct_identifier(*left),
            variant_identity(variants, *right, span),
        ) {
            (Some(name), Ok(id)) => Some((name, None, id.1, span)),
            _ => None,
        },
        _ => None,
    }
}

/// Model of an optional string.
pub open spec fn opt_text(o: Option<String>) -> Option<Seq<char>> {
    match o {
        Some(s) => Some(s@),
        None => None,
    }
}

/// Extract a variant refinement from a condition: `x is Family.Variant into payload`, or
/// `x is Family.Variant`, where the variant is registered.
pub fn extract_variant_refinement(adt_variants: &NameMap<Vec<String>>, condition: &Expr) -> (r: Option<
    (String, Option<String>, String, Span),
>)
    requires
        adt_variants.wf(),
    ensures
        match variant_refinement(adt_variants@, *condition) {
            Some(v) => r matches Some(t) && t.0@ == v.0 && opt_text(t.1) == v.1 && t.2@ == v.2 && t.3 == v.3,
            None => r is None,
        },
{
    let condition = unwrapped_expr(condition);
    match condition {
        Expr::Refinement { value, variant, payload_binding, span } => {
            let variable_name = match direct_identifier_name(&**value) {
                Some(n) => n,
                None => {
                    return None;
                },
            };
            match refinement_variant_identity(adt_variants, &**variant, *span) {
                Ok((_, owner, _)) => Some((owned(variable_name), Some(owned(payload_binding.as_str())), owner, *span)),
                Err(_) => None,
            }
        },
        Expr::Binary { left, operator, right, span } => {
            if !matches!(operator, BinaryOp::Is) {
                return None;
            }
            let variable_name = match direct_identifier_name(&**left) {
                Some(n) => n,
                None => {
                    return None;
                },
            };
            match refinement_variant_identity(adt_variants, &**right, *span) {
                Ok((_, owner, _)) => Some((owned(variable_name), None, owner, *span)),
                Err(_) => None,
            }
        },
        _ => None,
    }
}

/// The variable and type name of an `x is TypeName` condition, through one pair of
/// parentheses, with the condition's span.
pub open spec fn is_test_names(condition: Expr) -> Option<(Seq<char>, Seq<char>, Span)> {
    let c = match condition {
        Expr::Parenthesized { expr, .. } => *expr,
        _ => condition,
    };
    match c {
        Expr::Binary { left, operator: BinaryOp::Is, right, span } => match (*left, *right) {
            (Expr::Identifier { name: v, .. }, Expr::Identifier { name: t, .. }) => Some((v@, t@, span)),
            _ => None,
        },
        _ => None,
    }
}

/// Extract the variable, known type and span that an `x is TypeName` condition narrows
/// in its true branch; the type name must be known to the environment.
pub fn extract_is_type_narrowing(environment: &TypeEnvironment, condition: &Expr) -> (r: Option<
    (String, CoreType, Span),
>)
    requires
        environment.wf(),
    ensures
        match is_test_names(*condition) {
            Some(n) => if environment.types().contains_key(n.1) {
                r matches Some(t) && t.0@ == n.0 && model_of(t.1) == environment.types()[n.1] && t.2 == n.2
            } else {
                r is None
            },
            None => r is None,
        },
{
    let condition = match condition {
        Expr::Parenthesized { expr, .. } => &**expr,
        _ => condition,
    };
    let (left, right, span) = match condition {
        Expr::Binary { left, operator, right, span } => {
            if !matches!(operator, BinaryOp::Is) {
                return None;
            }
            (left, right, *span)
        },
        _ => {
            return None;
        },
    };
    let variable_name = match &**left {
        Expr::Identifier { name, .. } => name,
        _ => {
            return None;
        },
    };
    let type_label = match &**right {
        Expr::Identifier { name, .. } => name,
        _ => {
            return None;
        },
    };
    match environment.lookup_type(type_label.as_str(), span) {
        Ok(narrowed_type) => Some((owned(variable_name.as_str()), narrowed_type.duplicate(), span)),
        Err(_) => None,
    }
}

/// A value of type `m` may be refined into a variant of `family`: it is the family or
/// the variant type, or a guard error context one of whose error types covers the family.
pub open spec fn refinement_allows(
    families: Seq<StdlibErrorFamily>,
    m: TypeModel,
    family: Seq<char>,
    owner: Seq<char>,
) -> bool {
    compatible(m, nominal(family)) || compatible(m, nominal(owner)) || (m matches TypeModel::Generic {
        name,
        type_args,
    } && name == "GuardErrorContext"@ && exists|i: int|
        0 <= i < type_args.len() && (nominal(family) == #[trigger] type_args[i] || covered_by(
            families,
            display(nominal(family)),
            display(type_args[i]),
        )))
}

/// Whether a value of `value_type` may be refined into `variant_owner` of `family_name`.
pub fn refinement_value_type_allows_family(
    families: &[StdlibErrorFamily],
    value_type: &CoreType,
    family_name: &str,
    variant_owner: &str,
) -> (r: bool)
    ensures
        r == refinement_allows(families@, model_of(*value_type), family_name@, variant_owner@),
{
    let family_type = nominal_type(family_name);
    let variant_type = nominal_type(variant_owner);
    if types_compatible(value_type, &family_type) || types_compatible(value_type, &variant_type) {
        return true;
    }
    let (type_label, union_members) = match value_type {
        CoreType::Generic { name, type_args } => (name, type_args),
        _ => {
            return false;
        },
    };
    if !str_eq(type_label.as_str(), "GuardErrorContext") {
        proof {
            reveal_strlit("GuardErrorContext");
        }
        return false;
    }
    proof {
        reveal_strlit("GuardErrorContext");
        crate::types::lemma_models_of(union_members@);
    }
    let ghost ms = crate::types::models_of(union_members@);
    assert(model_of(*value_type) == (TypeModel::Generic { name: type_label@, type_args: ms }));
    let mut i: usize = 0;
    while i < union_members.len()
        invariant
            i <= union_members@.len(),
            ms == crate::types::models_of(union_members@),
            ms.len() == union_members@.len(),
            model_of(*value_type) == (TypeModel::Generic { name: type_label@, type_args: ms }),
            model_of(family_type) == nominal(family_name@),
            type_label@ == "GuardErrorContext"@,
            forall|j: int| 0 <= j < union_members@.len() ==> #[trigger] ms[j] == model_of(union_members@[j]),
            forall|j: int|
                0 <= j < i ==> !(nominal(family_name@) == #[trigger] ms[j] || covered_by(
                    families@,
                    display(nominal(family_name@)),
                    display(ms[j]),
                )),
        decreases union_members@.len() - i,
    {
        proof {
            assert(ms[i as int] == model_of(union_members@[i as int]));
        }
        if declared_error_type_covers(families, &family_type, &union_members[i]) {
            proof {
                assert(model_of(*value_type) == (TypeModel::Generic { name: type_label@, type_args: ms }));
                assert(nominal(family_name@) == ms[i as int] || covered_by(
                    families@,
                    display(nominal(family_name@)),
                    display(ms[i as int]),
                ));
            }
            return true;
        }
        i = i + 1;
    }
    false
}

/// The name whose borrow metadata a callee uses: `f`, or `alias.f` for a member of an
/// identifier.
pub open spec fn borrow_metadata_name(callee: Expr) -> Option<Seq<char>> {
    match callee {
        Expr::Identifier { name, .. } => Some(name@),
        Expr::Member { object, member, .. } => match *object {
            Expr::Identifier { name, .. } => Some(variant_owner(name@, member@)),
            _ => None,
        },
        _ => None,
    }
}

/// Name under which a callee's borrow metadata is registered.
pub fn callee_borrow_metadata_name(callee: &Expr) -> (r: Option<String>)
    ensures
        opt_text(r) == borrow_metadata_name(*callee),
{
    match callee {
        Expr::Identifier { name, .. } => Some(owned(name.as_str())),
        Expr::Member { object, member, .. } => match &**object {
            Expr::Identifier { name, .. } => {
                proof {
                    reveal_strlit(".");
                }
                Some(join3(name.as_str(), ".", member.as_str()))
            },
            _ => None,
        },
        _ => None,
    }
}

} // verus!
