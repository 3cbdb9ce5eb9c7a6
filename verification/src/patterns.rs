//! Match patterns: checking one pattern against the scrutinee type, and whether the
//! arms of a match cover every registered variant of a sum type.

use vstd::prelude::*;
use crate::ast::{MatchArm, Pattern};
use crate::checker_helpers::{literal_to_core_type, literal_type};
use crate::errors::{diagnostic_span_of, TypeError};
use crate::name_map::NameMap;
use crate::symbol_table::{SymbolInfo, SymbolType, Visibility};
use crate::text::{join3, names_contain, names_of, owned};
use crate::token::Span;
use crate::type_rules::{compatible, types_compatible};
use crate::types::{display, model_of, CoreType, TypeModel};

verus! {

/// The nominal name of a type for variant lookup: a nominal type's own name, else
/// its display name.
pub open spec fn adt_name(t: TypeModel) -> Seq<char> {
    match t {
        TypeModel::Generic { name, .. } => name,
        _ => display(t),
    }
}

/// `Type.Variant`.
pub open spec fn qualified(type_label: Seq<char>, variant: Seq<char>) -> Seq<char> {
    type_label + seq!['.'] + variant
}

/// The qualified variants the arms name, in arm order; an unqualified variant belongs
/// to the scrutinee's type.
pub open spec fn covered_variants(arms: Seq<MatchArm>, t: TypeModel) -> Seq<Seq<char>>
    decreases arms.len(),
{
    if arms.len() == 0 {
        Seq::empty()
    } else {
        let rest = covered_variants(arms.drop_last(), t);
        match arms.last().pattern {
            Pattern::Variant { type_label, variant_name, .. } => rest.push(
                qualified(
                    match type_label {
                        Some(n) => n@,
                        None => adt_name(t),
                    },
                    variant_name@,
                ),
            ),
            _ => rest,
        }
    }
}

/// The entries of `all` that `covered` does not name, in order.
pub open spec fn missing_from(all: Seq<Seq<char>>, covered: Seq<Seq<char>>) -> Seq<Seq<char>>
    decreases all.len(),
{
    if all.len() == 0 {
        Seq::empty()
    } else {
        let rest = missing_from(all.drop_last(), covered);
        if covered.contains(all.last()) {
            rest
        } else {
            rest.push(all.last())
        }
    }
}

/// The registered qualified variants of the sum type `name`; none if unregistered.
pub open spec fn registered_variants(adt: Map<Seq<char>, Vec<String>>, name: Seq<char>) -> Seq<Seq<char>> {
    if adt.contains_key(name) {
        names_of(adt[name]@)
    } else {
        Seq::empty()
    }
}

/// The registered variants of the scrutinee's type that no arm names.
pub open spec fn missing_variants(adt: Map<Seq<char>, Vec<String>>, arms: Seq<MatchArm>, t: TypeModel) -> Seq<Seq<char>> {
    missing_from(registered_variants(adt, adt_name(t)), covered_variants(arms, t))
}

/// Some arm matches anything.
pub open spec fn has_catch_all(arms: Seq<MatchArm>) -> bool {
    exists|i: int| 0 <= i < arms.len() && (#[trigger] arms[i].pattern is Wildcard || arms[i].pattern is Binding)
}

/// A name a pattern binds: its name, where, and the type it gets.
pub ghost struct PatternBinding {
    pub name: Seq<char>,
    pub span: Span,
    pub core_type: TypeModel,
}

/// Checking a pattern against a scrutinee type: the bindings it registers in order,
/// and the mismatch (expected, found, where) that stops it, if any.
pub open spec fn pattern_outcome(adt: Map<Seq<char>, Vec<String>>, p: Pattern, t: TypeModel) -> (
    Seq<PatternBinding>,
    Option<(Seq<char>, Seq<char>, Span)>,
)
    decreases p,
{
    match p {
        Pattern::Wildcard { .. } => (Seq::empty(), None),
        Pattern::Binding { name, span } => (seq![PatternBinding { name: name@, span, core_type: t }], None),
        Pattern::Literal { value, span } => if compatible(t, literal_type(value)) {
            (Seq::empty(), None)
        } else {
            (Seq::empty(), Some((display(t), display(literal_type(value)), span)))
        },
        Pattern::Tuple { elements, span } => match t {
            TypeModel::Array(e) => elements_outcome(adt, elements@, *e),
            _ => (Seq::empty(), Some(("tuple/array-compatible type"@, display(t), span))),
        },
        Pattern::Variant { type_label, variant_name, fields, span } => {
            let vt = match type_label {
                Some(n) => n@,
                None => adt_name(t),
            };
            if !adt.contains_key(vt) {
                (Seq::empty(), Some((vt, variant_name@, span)))
            } else if !names_of(adt[vt]@).contains(qualified(vt, variant_name@)) {
                (Seq::empty(), Some((adt_name(t), qualified(vt, variant_name@), span)))
            } else {
                fields_outcome(adt, fields@, t)
            }
        },
    }
}

/// Checking element patterns in order against one type, stopping at the first mismatch.
pub open spec fn elements_outcome(adt: Map<Seq<char>, Vec<String>>, ps: Seq<Pattern>, t: TypeModel) -> (
    Seq<PatternBinding>,
    Option<(Seq<char>, Seq<char>, Span)>,
)
    decreases ps,
{
    if ps.len() == 0 {
        (Seq::empty(), None)
    } else {
        let before = elements_outcome(adt, ps.drop_last(), t);
        if before.1 is Some {
            before
        } else {
            let last = pattern_outcome(adt, ps.last(), t);
            (before.0 + last.0, last.1)
        }
    }
}

/// Checking field patterns in order against one type, stopping at the first mismatch.
pub open spec fn fields_outcome(adt: Map<Seq<char>, Vec<String>>, ps: Seq<(String, Pattern)>, t: TypeModel) -> (
    Seq<PatternBinding>,
    Option<(Seq<char>, Seq<char>, Span)>,
)
    decreases ps,
{
    if ps.len() == 0 {
        (Seq::empty(), None)
    } else {
        let before = fields_outcome(adt, ps.drop_last(), t);
        if before.1 is Some {
            before
        } else {
            let last = pattern_outcome(adt, ps.last().1, t);
            (before.0 + last.0, last.1)
        }
    }
}

/// `s` is the arm-local symbol registered for the binding `b`.
pub open spec fn registers(s: SymbolInfo, b: PatternBinding) -> bool {
    &&& s.name@ == b.name
    &&& s.symbol_type == SymbolType::Variable
    &&& model_of(s.core_type) == b.core_type
    &&& s.visibility == Visibility::Private
    &&& s.source_location == b.span
    &&& !s.is_let_binding
    &&& !s.is_mutable
    &&& s.read_count == 0
    &&& !s.is_pure
}

/// `after` is `before` followed by symbols registering `bs`.
pub open spec fn appended_bindings(before: Seq<SymbolInfo>, after: Seq<SymbolInfo>, bs: Seq<PatternBinding>) -> bool {
    &&& after.len() == before.len() + bs.len()
    &&& after.subrange(0, before.len() as int) == before
    &&& forall|j: int| 0 <= j < bs.len() ==> registers(after[before.len() + j], #[trigger] bs[j])
}

/// `r` reports the mismatch `f`, or success when there is none.
pub open spec fn reports_mismatch(r: Result<(), TypeError>, f: Option<(Seq<char>, Seq<char>, Span)>) -> bool {
    match f {
        None => r is Ok,
        Some((expected, found, span)) => r matches Err(TypeError::PatternTypeMismatch { expected: e, found: x, span: s })
            && e@ == expected && x@ == found && s == diagnostic_span_of(span),
    }
}

/// Registering bindings twice registers their concatenation.
proof fn lemma_bindings_chain(
    a: Seq<SymbolInfo>,
    b: Seq<SymbolInfo>,
    c: Seq<SymbolInfo>,
    x: Seq<PatternBinding>,
    y: Seq<PatternBinding>,
)
    requires
        appended_bindings(a, b, x),
        appended_bindings(b, c, y),
    ensures
        appended_bindings(a, c, x + y),
{
    assert(c.subrange(0, a.len() as int) =~= a) by {
        assert forall|i: int| 0 <= i < a.len() implies c[i] == a[i] by {
            assert(c.subrange(0, b.len() as int)[i] == b[i]);
            assert(b.subrange(0, a.len() as int)[i] == a[i]);
        }
    }
    assert forall|j: int| 0 <= j < (x + y).len() implies registers(c[a.len() + j], #[trigger] (x + y)[j]) by {
        if j < x.len() {
            assert(registers(b[a.len() + j], x[j]));
            assert(c.subrange(0, b.len() as int)[a.len() + j] == b[a.len() + j]);
        } else {
            assert(registers(c[b.len() + (j - x.len())], y[j - x.len()]));
        }
    }
}

/// The nominal name of a type for variant lookup.
pub fn adt_name_for_type(core_type: &CoreType) -> (r: String)
    ensures
        r@ == adt_name(model_of(*core_type)),
{
    match core_type {
        CoreType::Generic { name, .. } => owned(name.as_str()),
        _ => core_type.display_name(),
    }
}

/// `Type.Variant`.
fn qualified_variant(type_label: &str, variant: &str) -> (r: String)
    ensures
        r@ == qualified(type_label@, variant@),
{
    proof {
        reveal_strlit(".");
        assert("."@ =~= seq!['.']);
    }
    join3(type_label, ".", variant)
}

/// Validate a match pattern against the scrutinee type, appending to `bindings` the
/// arm-local symbols it introduces, in order, up to the first mismatch.
pub fn type_check_pattern(
    adt_variants: &NameMap<Vec<String>>,
    pattern: &Pattern,
    scrutinee_type: &CoreType,
    bindings: &mut Vec<SymbolInfo>,
) -> (r: Result<(), TypeError>)
    requires
        adt_variants.wf(),
    ensures
        appended_bindings(old(bindings)@, final(bindings)@, pattern_outcome(adt_variants@, *pattern, model_of(*scrutinee_type)).0),
        reports_mismatch(r, pattern_outcome(adt_variants@, *pattern, model_of(*scrutinee_type)).1),
    decreases pattern,
{
    let ghost start = bindings@;
    proof {
        assert(start.subrange(0, start.len() as int) =~= start);
    }
    match pattern {
        Pattern::Wildcard { .. } => Ok(()),
        Pattern::Binding { name, span } => {
            bindings.push(SymbolInfo {
                name: owned(name.as_str()),
                symbol_type: SymbolType::Variable,
                core_type: scrutinee_type.duplicate(),
                visibility: Visibility::Private,
                source_location: *span,
                is_let_binding: false,
                is_mutable: false,
                read_count: 0,
                is_pure: false,
            });
            proof {
                let bs = pattern_outcome(adt_variants@, *pattern, model_of(*scrutinee_type)).0;
                assert(bindings@.subrange(0, start.len() as int) =~= start);
                assert(registers(bindings@[start.len() as int], bs[0]));
            }
            Ok(())
        },
        Pattern::Literal { value, span } => {
            let found = literal_to_core_type(value);
            if types_compatible(scrutinee_type, &found) {
                Ok(())
            } else {
                Err(TypeError::PatternTypeMismatch {
                    expected: scrutinee_type.display_name(),
                    found: found.display_name(),
                    span: TypeError::span_from_span(*span),
                })
            }
        },
        Pattern::Tuple { elements, span } => match scrutinee_type {
            CoreType::Array(element_type) => check_element_patterns(adt_variants, elements, &**element_type, bindings),
            _ => Err(TypeError::PatternTypeMismatch {
                expected: owned("tuple/array-compatible type"),
                found: scrutinee_type.display_name(),
                span: TypeError::span_from_span(*span),
            }),
        },
        Pattern::Variant { type_label, variant_name, fields, span } => {
            let variant_type_name = match type_label {
                Some(n) => owned(n.as_str()),
                None => adt_name_for_type(scrutinee_type),
            };
            let qualified_name = qualified_variant(variant_type_name.as_str(), variant_name.as_str());
            match adt_variants.get(variant_type_name.as_str()) {
                None => Err(TypeError::PatternTypeMismatch {
                    expected: variant_type_name,
                    found: owned(variant_name.as_str()),
                    span: TypeError::span_from_span(*span),
                }),
                Some(known_variants) => {
                    if !names_contain(known_variants, qualified_name.as_str()) {
                        return Err(TypeError::PatternTypeMismatch {
                            expected: adt_name_for_type(scrutinee_type),
                            found: qualified_name,
                            span: TypeError::span_from_span(*span),
                        });
                    }
                    check_field_patterns(adt_variants, fields, scrutinee_type, bindings)
                },
            }
        },
    }
}

/// Check element patterns in order against one type, stopping at the first mismatch.
fn check_element_patterns(
    adt_variants: &NameMap<Vec<String>>,
    elements: &Vec<Pattern>,
    element_type: &CoreType,
    bindings: &mut Vec<SymbolInfo>,
) -> (r: Result<(), TypeError>)
    requires
        adt_variants.wf(),
    ensures
        appended_bindings(old(bindings)@, final(bindings)@, elements_outcome(adt_variants@, elements@, model_of(*element_type)).0),
        reports_mismatch(r, elements_outcome(adt_variants@, elements@, model_of(*element_type)).1),
    decreases elements,
{
    let ghost adt = adt_variants@;
    let ghost et = model_of(*element_type);
    let ghost start = bindings@;
    proof {
        assert(start.subrange(0, start.len() as int) =~= start);
        assert(elements@.take(0) =~= Seq::<Pattern>::empty());
    }
    let mut i: usize = 0;
    while i < elements.len()
        invariant
            adt_variants.wf(),
            adt == adt_variants@,
            et == model_of(*element_type),
            start == old(bindings)@,
            i <= elements@.len(),
            appended_bindings(start, bindings@, elements_outcome(adt, elements@.take(i as int), et).0),
            elements_outcome(adt, elements@.take(i as int), et).1 is None,
        decreases elements@.len() - i,
    {
        proof {
            vstd::std_specs::vec::axiom_vec_index_decreases(*elements, i as int);
            assert(elements@.take(i + 1).drop_last() =~= elements@.take(i as int));
            assert(elements@.take(i + 1).last() == elements@[i as int]);
        }
        let ghost mid = bindings@;
        let step = type_check_pattern(adt_variants, &elements[i], element_type, bindings);
        proof {
            lemma_bindings_chain(
                start,
                mid,
                bindings@,
                elements_outcome(adt, elements@.take(i as int), et).0,
                pattern_outcome(adt, elements@[i as int], et).0,
            );
        }
        match step {
            Ok(()) => {},
            Err(e) => {
                proof {
                    assert(elements_outcome(adt, elements@.take(i + 1), et).0 == elements_outcome(
                        adt,
                        elements@.take(i as int),
                        et,
                    ).0 + pattern_outcome(adt, elements@[i as int], et).0);
                    lemma_elements_stop(adt, elements@, et, i + 1);
                }
                return Err(e);
            },
        }
        i = i + 1;
    }
    proof {
        assert(elements@.take(elements@.len() as int) =~= elements@);
    }
    Ok(())
}

/// Check field patterns in order against one type, stopping at the first mismatch.
fn check_field_patterns(
    adt_variants: &NameMap<Vec<String>>,
    fields: &Vec<(String, Pattern)>,
    scrutinee_type: &CoreType,
    bindings: &mut Vec<SymbolInfo>,
) -> (r: Result<(), TypeError>)
    requires
        adt_variants.wf(),
    ensures
        appended_bindings(old(bindings)@, final(bindings)@, fields_outcome(adt_variants@, fields@, model_of(*scrutinee_type)).0),
        reports_mismatch(r, fields_outcome(adt_variants@, fields@, model_of(*scrutinee_type)).1),
    decreases fields,
{
    let ghost adt = adt_variants@;
    let ghost t = model_of(*scrutinee_type);
    let ghost start = bindings@;
    proof {
        assert(start.subrange(0, start.len() as int) =~= start);
        assert(fields@.take(0) =~= Seq::<(String, Pattern)>::empty());
    }
    let mut i: usize = 0;
    while i < fields.len()
        invariant
            adt_variants.wf(),
            adt == adt_variants@,
            t == model_of(*scrutinee_type),
            start == old(bindings)@,
            i <= fields@.len(),
            appended_bindings(start, bindings@, fields_outcome(adt, fields@.take(i as int), t).0),
            fields_outcome(adt, fields@.take(i as int), t).1 is None,
        decreases fields@.len() - i,
    {
        proof {
            vstd::std_specs::vec::axiom_vec_index_decreases(*fields, i as int);
            assert(decreases_to!(fields@[i as int] => fields@[i as int].1));
            assert(fields@.take(i + 1).drop_last() =~= fields@.take(i as int));
            assert(fields@.take(i + 1).last() == fields@[i as int]);
        }
        let ghost mid = bindings@;
        let step = type_check_pattern(adt_variants, &fields[i].1, scrutinee_type, bindings);
        proof {
            lemma_bindings_chain(
                start,
                mid,
                bindings@,
                fields_outcome(adt, fields@.take(i as int), t).0,
                pattern_outcome(adt, fields@[i as int].1, t).0,
            );
        }
        match step {
            Ok(()) => {},
            Err(e) => {
                proof {
                    assert(fields_outcome(adt, fields@.take(i + 1), t).0 == fields_outcome(adt, fields@.take(i as int), t).0
                        + pattern_outcome(adt, fields@[i as int].1, t).0);
                    lemma_fields_stop(adt, fields@, t, i + 1);
                }
                return Err(e);
            },
        }
        i = i + 1;
    }
    proof {
        assert(fields@.take(fields@.len() as int) =~= fields@);
    }
    Ok(())
}

/// Once element checking stops at a prefix, it stops there for the whole list.
proof fn lemma_elements_stop(adt: Map<Seq<char>, Vec<String>>, ps: Seq<Pattern>, t: TypeModel, k: int)
    requires
        0 <= k <= ps.len(),
        elements_outcome(adt, ps.take(k), t).1 is Some,
    ensures
        elements_outcome(adt, ps, t) == elements_outcome(adt, ps.take(k), t),
    decreases ps.len() - k,
{
    if k < ps.len() {
        assert(ps.take(k + 1).drop_last() =~= ps.take(k));
        lemma_elements_stop(adt, ps, t, k + 1);
    } else {
        assert(ps.take(k) =~= ps);
    }
}

/// Once field checking stops at a prefix, it stops there for the whole list.
proof fn lemma_fields_stop(adt: Map<Seq<char>, Vec<String>>, ps: Seq<(String, Pattern)>, t: TypeModel, k: int)
    requires
        0 <= k <= ps.len(),
        fields_outcome(adt, ps.take(k), t).1 is Some,
    ensures
        fields_outcome(adt, ps, t) == fields_outcome(adt, ps.take(k), t),
    decreases ps.len() - k,
{
    if k < ps.len() {
        assert(ps.take(k + 1).drop_last() =~= ps.take(k));
        lemma_fields_stop(adt, ps, t, k + 1);
    } else {
        assert(ps.take(k) =~= ps);
    }
}

/// Collect the registered qualified variants of the scrutinee's type that no arm names,
/// in registration order.
pub fn collect_missing_variants(
    adt_variants: &NameMap<Vec<String>>,
    arms: &[MatchArm],
    scrutinee_type: &CoreType,
) -> (r: Vec<String>)
    requires
        adt_variants.wf(),
    ensures
        names_of(r@) == missing_variants(adt_variants@, arms@, model_of(*scrutinee_type)),
{
    let ghost t = model_of(*scrutinee_type);
    let type_label = adt_name_for_type(scrutinee_type);
    let mut covered: Vec<String> = Vec::new();
    let mut i: usize = 0;
    while i < arms.len()
        invariant
            i <= arms@.len(),
            type_label@ == adt_name(t),
            names_of(covered@) == covered_variants(arms@.take(i as int), t),
        decreases arms@.len() - i,
    {
        proof {
            assert(arms@.take(i + 1).drop_last() =~= arms@.take(i as int));
            assert(arms@.take(i + 1).last() == arms@[i as int]);
        }
        match &arms[i].pattern {
            Pattern::Variant { type_label: pattern_type, variant_name, .. } => {
                let resolved = match pattern_type {
                    Some(n) => owned(n.as_str()),
                    None => owned(type_label.as_str()),
                };
                let ghost before = covered@;
                covered.push(qualified_variant(resolved.as_str(), variant_name.as_str()));
                proof {
                    assert(covered@.drop_last() =~= before);
                    assert(names_of(covered@) =~= names_of(before).push(covered@.last()@));
                }
            },
            _ => {},
        }
        i = i + 1;
    }
    proof {
        assert(arms@.take(arms@.len() as int) =~= arms@);
    }
    let ghost cov = names_of(covered@);
    let mut missing: Vec<String> = Vec::new();
    match adt_variants.get(type_label.as_str()) {
        Some(all) => {
            let mut j: usize = 0;
            while j < all.len()
                invariant
                    j <= all@.len(),
                    cov == names_of(covered@),
                    names_of(missing@) == missing_from(names_of(all@).take(j as int), cov),
                decreases all@.len() - j,
            {
                proof {
                    let q = names_of(all@);
                    assert(q.take(j + 1).drop_last() =~= q.take(j as int));
                    assert(q.take(j + 1).last() == all@[j as int]@);
                }
                if !names_contain(&covered, all[j].as_str()) {
                    let ghost before = missing@;
                    missing.push(owned(all[j].as_str()));
                    proof {
                        assert(missing@.drop_last() =~= before);
                        assert(names_of(missing@) =~= names_of(before).push(all@[j as int]@));
                    }
                }
                j = j + 1;
            }
            proof {
                assert(names_of(all@).take(all@.len() as int) =~= names_of(all@));
            }
        },
        None => {
            proof {
                assert(names_of(missing@) =~= Seq::<Seq<char>>::empty());
            }
        },
    }
    missing
}

/// Whether the arms cover the scrutinee type: some arm matches anything, or its type is
/// a registered sum type and every variant is named.
pub fn match_is_exhaustive(adt_variants: &NameMap<Vec<String>>, arms: &[MatchArm], scrutinee_type: &CoreType) -> (r: bool)
    requires
        adt_variants.wf(),
    ensures
        r == (has_catch_all(arms@) || (adt_variants@.contains_key(adt_name(model_of(*scrutinee_type)))
            && missing_variants(adt_variants@, arms@, model_of(*scrutinee_type)).len() == 0)),
{
    let mut i: usize = 0;
    while i < arms.len()
        invariant
            i <= arms@.len(),
            forall|j: int| 0 <= j < i ==> !(arms@[j].pattern is Wildcard || arms@[j].pattern is Binding),
        decreases arms@.len() - i,
    {
        match &arms[i].pattern {
            Pattern::Wildcard { .. } | Pattern::Binding { .. } => {
                proof {
                    assert(arms@[i as int].pattern is Wildcard || arms@[i as int].pattern is Binding);
                }
                return true;
            },
            _ => {},
        }
        i = i + 1;
    }
    let type_label = adt_name_for_type(scrutinee_type);
    if !adt_variants.contains_key(type_label.as_str()) {
        return false;
    }
    collect_missing_variants(adt_variants, arms, scrutinee_type).len() == 0
}

/// Arm `k` has a value type incompatible with the first arm's.
pub open spec fn arm_disagrees(arm_types: Seq<CoreType>, k: int) -> bool {
    1 <= k && !compatible(model_of(arm_types[0]), model_of(arm_types[k]))
}

/// Type a match whose arms' values were typed as `arm_types` (aligned with `arms`): every
/// arm agrees with the first arm's type, which the match has; the arms cover every
/// variant of the scrutinee's type (or one catches all); a match has at least one arm.
pub fn type_check_match_expr(
    adt_variants: &NameMap<Vec<String>>,
    arms: &[MatchArm],
    scrutinee_type: &CoreType,
    arm_types: &[CoreType],
    span: Span,
) -> (r: Result<CoreType, TypeError>)
    requires
        adt_variants.wf(),
        arms@.len() == arm_types@.len(),
    ensures
        forall|k: int|
            0 <= k < arms@.len() && arm_disagrees(arm_types@, k) && (forall|i: int| 0 <= i < k ==> !arm_disagrees(arm_types@, i))
                ==> (r matches Err(TypeError::MatchArmTypeMismatch { arm_index, expected, found, span: s })
                && arm_index == k && expected@ == display(model_of(arm_types@[0])) && found@ == display(
                model_of(arm_types@[k]),
            ) && s == diagnostic_span_of(arms@[k].span)),
        (forall|i: int| 0 <= i < arms@.len() ==> !arm_disagrees(arm_types@, i)) ==> {
            let exhaustive = has_catch_all(arms@) || (adt_variants@.contains_key(adt_name(model_of(*scrutinee_type)))
                && missing_variants(adt_variants@, arms@, model_of(*scrutinee_type)).len() == 0);
            &&& !exhaustive ==> (r matches Err(TypeError::NonExhaustiveMatch { missing_variants: m, span: s })
                && names_of(m@) == missing_variants(adt_variants@, arms@, model_of(*scrutinee_type)) && s
                == diagnostic_span_of(span))
            &&& exhaustive && arms@.len() == 0 ==> (r matches Err(TypeError::ConstraintSolvingFailed { reason, span: s })
                && reason@ == "match expression must include at least one arm"@ && s == diagnostic_span_of(span))
            &&& exhaustive && arms@.len() > 0 ==> (r matches Ok(t) && model_of(t) == model_of(arm_types@[0]))
        },
{
    let mut k: usize = 1;
    while k < arms.len()
        invariant
            1 <= k,
            arms@.len() == arm_types@.len(),
            arms@.len() > 0 ==> k <= arms@.len(),
            forall|i: int| 0 <= i < k && i < arms@.len() ==> !arm_disagrees(arm_types@, i),
        decreases arms@.len() - k,
    {
        if !types_compatible(&arm_types[0], &arm_types[k]) {
            proof {
                assert(arm_disagrees(arm_types@, k as int));
                assert forall|j: int|
                    0 <= j < arms@.len() && arm_disagrees(arm_types@, j) && (forall|i: int|
                        0 <= i < j ==> !arm_disagrees(arm_types@, i)) implies j == k by {
                    if j > k {
                        assert(arm_disagrees(arm_types@, k as int));
                    }
                }
            }
            return Err(
                TypeError::MatchArmTypeMismatch {
                    arm_index: k,
                    expected: arm_types[0].display_name(),
                    found: arm_types[k].display_name(),
                    span: TypeError::span_from_span(arms[k].span),
                },
            );
        }
        k = k + 1;
    }
    if !match_is_exhaustive(adt_variants, arms, scrutinee_type) {
        let missing = collect_missing_variants(adt_variants, arms, scrutinee_type);
        return Err(TypeError::NonExhaustiveMatch { missing_variants: missing, span: TypeError::span_from_span(span) });
    }
    if arms.len() == 0 {
        proof {
            reveal_strlit("match expression must include at least one arm");
        }
        return Err(
            TypeError::ConstraintSolvingFailed {
                reason: owned("match expression must include at least one arm"),
                span: TypeError::span_from_span(span),
            },
        );
    }
    Ok(arm_types[0].duplicate())
}

} // verus!
