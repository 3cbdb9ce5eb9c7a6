//! Whether a type holds affine resource state: an affine nominal type, directly, as an
//! array element or type argument, or through the fields of the registered product
//! types and sum-type variants it names.

use vstd::prelude::*;
use crate::name_map::NameMap;
use crate::ast::{BorrowKind, Parameter};
use crate::ownership::{BorrowBinding, OwnerBinding, OwnershipState};
use crate::token::Span;
use crate::text::owned;
use crate::types::{display, lemma_models_of, model_of, models_of, CoreType, TypeModel};

verus! {

/// The registered field types of one owner.
pub open spec fn owner_field_types(fields: Map<Seq<char>, NameMap<CoreType>>, owner: Seq<char>) -> Set<TypeModel> {
    Set::new(|m: TypeModel| fields.contains_key(owner) && exists|f: Seq<char>| #[trigger] fields[owner]@.contains_key(f)
        && model_of(fields[owner]@[f]) == m)
}

/// The field types reachable from a nominal type in one step: its own registered
/// fields, and those of each of its registered variants.
pub open spec fn field_types(
    fields: Map<Seq<char>, NameMap<CoreType>>,
    variants: Map<Seq<char>, Vec<String>>,
    name: Seq<char>,
) -> Set<TypeModel> {
    owner_field_types(fields, name).union(
        Set::new(|m: TypeModel| variants.contains_key(name) && exists|j: int| 0 <= j < variants[name]@.len()
            && #[trigger] owner_field_types(fields, variants[name]@[j]@).contains(m)),
    )
}

/// `t` names an affine type, or a nominal type in `reaching`, as itself, an array
/// element or a type argument.
pub open spec fn contains_via(affine: Set<Seq<char>>, t: TypeModel, reaching: Set<Seq<char>>) -> bool
    decreases t,
{
    match t {
        TypeModel::Array(e) => contains_via(affine, *e, reaching),
        TypeModel::Generic { name, type_args } => affine.contains(name) || any_contains_via(affine, type_args, reaching)
            || reaching.contains(name),
        _ => false,
    }
}

/// One of `s` satisfies `contains_via`.
pub open spec fn any_contains_via(affine: Set<Seq<char>>, s: Seq<TypeModel>, reaching: Set<Seq<char>>) -> bool
    decreases s,
{
    if s.len() == 0 {
        false
    } else {
        any_contains_via(affine, s.drop_last(), reaching) || contains_via(affine, s.last(), reaching)
    }
}

/// The nominal types whose fields reach affine state within `k` steps.
pub open spec fn reaching(
    affine: Set<Seq<char>>,
    fields: Map<Seq<char>, NameMap<CoreType>>,
    variants: Map<Seq<char>, Vec<String>>,
    k: nat,
) -> Set<Seq<char>>
    decreases k,
{
    if k == 0 {
        Set::empty()
    } else {
        Set::new(|n: Seq<char>| exists|m: TypeModel| #[trigger] field_types(fields, variants, n).contains(m) && contains_via(
            affine,
            m,
            reaching(affine, fields, variants, (k - 1) as nat),
        ))
    }
}

/// `t` holds affine resource state.
pub open spec fn contains_affine(
    affine: Set<Seq<char>>,
    fields: Map<Seq<char>, NameMap<CoreType>>,
    variants: Map<Seq<char>, Vec<String>>,
    t: TypeModel,
) -> bool {
    exists|k: nat| #[trigger] contains_via(affine, t, reaching(affine, fields, variants, k))
}

/// Every nominal type `t` names (outside function types) is non-affine and in `seen`.
pub open spec fn settled(affine: Set<Seq<char>>, t: TypeModel, seen: Set<Seq<char>>) -> bool
    decreases t,
{
    match t {
        TypeModel::Array(e) => settled(affine, *e, seen),
        TypeModel::Generic { name, type_args } => !affine.contains(name) && seen.contains(name) && all_settled(
            affine,
            type_args,
            seen,
        ),
        _ => true,
    }
}

/// Every one of `s` is settled.
pub open spec fn all_settled(affine: Set<Seq<char>>, s: Seq<TypeModel>, seen: Set<Seq<char>>) -> bool
    decreases s,
{
    if s.len() == 0 {
        true
    } else {
        all_settled(affine, s.drop_last(), seen) && settled(affine, s.last(), seen)
    }
}

/// Every seen name off the stack has all its field types settled.
pub open spec fn closed(
    affine: Set<Seq<char>>,
    fields: Map<Seq<char>, NameMap<CoreType>>,
    variants: Map<Seq<char>, Vec<String>>,
    seen: Set<Seq<char>>,
    stack: Set<Seq<char>>,
) -> bool {
    forall|n: Seq<char>, m: TypeModel| #![trigger seen.contains(n), field_types(fields, variants, n).contains(m)]
        seen.contains(n) && !stack.contains(n) && field_types(fields, variants, n).contains(m) ==> settled(affine, m, seen)
}

/// Settledness survives seeing more names.
pub proof fn lemma_settled_mono(affine: Set<Seq<char>>, t: TypeModel, a: Set<Seq<char>>, b: Set<Seq<char>>)
    requires
        settled(affine, t, a),
        a.subset_of(b),
    ensures
        settled(affine, t, b),
    decreases t,
{
    match t {
        TypeModel::Array(e) => lemma_settled_mono(affine, *e, a, b),
        TypeModel::Generic { name, type_args } => lemma_all_settled_mono(affine, type_args, a, b),
        _ => {},
    }
}

/// Settledness of a list survives seeing more names.
pub proof fn lemma_all_settled_mono(affine: Set<Seq<char>>, s: Seq<TypeModel>, a: Set<Seq<char>>, b: Set<Seq<char>>)
    requires
        all_settled(affine, s, a),
        a.subset_of(b),
    ensures
        all_settled(affine, s, b),
    decreases s,
{
    if s.len() > 0 {
        lemma_all_settled_mono(affine, s.drop_last(), a, b);
        lemma_settled_mono(affine, s.last(), a, b);
    }
}

/// A settled type reaches nothing outside the seen names, so none of a set disjoint
/// from them.
pub proof fn lemma_settled_excludes(affine: Set<Seq<char>>, t: TypeModel, seen: Set<Seq<char>>, r: Set<Seq<char>>)
    requires
        settled(affine, t, seen),
        r.disjoint(seen),
    ensures
        !contains_via(affine, t, r),
    decreases t,
{
    match t {
        TypeModel::Array(e) => lemma_settled_excludes(affine, *e, seen, r),
        TypeModel::Generic { name, type_args } => lemma_all_settled_excludes(affine, type_args, seen, r),
        _ => {},
    }
}

/// A settled list reaches nothing outside the seen names.
pub proof fn lemma_all_settled_excludes(affine: Set<Seq<char>>, s: Seq<TypeModel>, seen: Set<Seq<char>>, r: Set<Seq<char>>)
    requires
        all_settled(affine, s, seen),
        r.disjoint(seen),
    ensures
        !any_contains_via(affine, s, r),
    decreases s,
{
    if s.len() > 0 {
        lemma_all_settled_excludes(affine, s.drop_last(), seen, r);
        lemma_settled_excludes(affine, s.last(), seen, r);
    }
}

/// Names closed with an empty stack reach no affine state in any number of steps.
pub proof fn lemma_closed_unreached(
    affine: Set<Seq<char>>,
    fields: Map<Seq<char>, NameMap<CoreType>>,
    variants: Map<Seq<char>, Vec<String>>,
    seen: Set<Seq<char>>,
    k: nat,
)
    requires
        closed(affine, fields, variants, seen, Set::empty()),
    ensures
        reaching(affine, fields, variants, k).disjoint(seen),
    decreases k,
{
    if k > 0 {
        lemma_closed_unreached(affine, fields, variants, seen, (k - 1) as nat);
        let prev = reaching(affine, fields, variants, (k - 1) as nat);
        assert forall|n: Seq<char>| reaching(affine, fields, variants, k).contains(n) implies !seen.contains(n) by {
            let m = choose|m: TypeModel| #[trigger] field_types(fields, variants, n).contains(m) && contains_via(affine, m, prev);
            if seen.contains(n) {
                assert(settled(affine, m, seen));
                lemma_settled_excludes(affine, m, seen, prev);
            }
        }
    }
}

/// `contains_via` grows with the reaching set.
pub proof fn lemma_contains_via_mono(affine: Set<Seq<char>>, t: TypeModel, a: Set<Seq<char>>, b: Set<Seq<char>>)
    requires
        contains_via(affine, t, a),
        a.subset_of(b),
    ensures
        contains_via(affine, t, b),
    decreases t,
{
    match t {
        TypeModel::Array(e) => lemma_contains_via_mono(affine, *e, a, b),
        TypeModel::Generic { name, type_args } => {
            if any_contains_via(affine, type_args, a) {
                lemma_any_contains_via_mono(affine, type_args, a, b);
            }
        },
        _ => {},
    }
}

/// `any_contains_via` grows with the reaching set.
pub proof fn lemma_any_contains_via_mono(affine: Set<Seq<char>>, s: Seq<TypeModel>, a: Set<Seq<char>>, b: Set<Seq<char>>)
    requires
        any_contains_via(affine, s, a),
        a.subset_of(b),
    ensures
        any_contains_via(affine, s, b),
    decreases s,
{
    if s.len() > 0 {
        if any_contains_via(affine, s.drop_last(), a) {
            lemma_any_contains_via_mono(affine, s.drop_last(), a, b);
        } else {
            lemma_contains_via_mono(affine, s.last(), a, b);
        }
    }
}

/// The reaching sets grow with the number of steps.
pub proof fn lemma_reaching_mono(
    affine: Set<Seq<char>>,
    fields: Map<Seq<char>, NameMap<CoreType>>,
    variants: Map<Seq<char>, Vec<String>>,
    j: nat,
    k: nat,
)
    requires
        j <= k,
    ensures
        reaching(affine, fields, variants, j).subset_of(reaching(affine, fields, variants, k)),
    decreases k,
{
    if j < k {
        lemma_reaching_mono(affine, fields, variants, j, (k - 1) as nat);
        if k >= 1 {
            lemma_reaching_step(affine, fields, variants, (k - 1) as nat);
        }
    }
}

/// One more step reaches at least as much.
proof fn lemma_reaching_step(
    affine: Set<Seq<char>>,
    fields: Map<Seq<char>, NameMap<CoreType>>,
    variants: Map<Seq<char>, Vec<String>>,
    k: nat,
)
    ensures
        reaching(affine, fields, variants, k).subset_of(reaching(affine, fields, variants, k + 1)),
    decreases k,
{
    if k > 0 {
        lemma_reaching_step(affine, fields, variants, (k - 1) as nat);
        let a = reaching(affine, fields, variants, (k - 1) as nat);
        let b = reaching(affine, fields, variants, k);
        assert forall|n: Seq<char>| b.contains(n) implies reaching(affine, fields, variants, k + 1).contains(n) by {
            let m = choose|m: TypeModel| #[trigger] field_types(fields, variants, n).contains(m) && contains_via(affine, m, a);
            lemma_contains_via_mono(affine, m, a, b);
        }
    }
}

/// Names with registered fields or variants.
pub open spec fn registered(fields: Map<Seq<char>, NameMap<CoreType>>, variants: Map<Seq<char>, Vec<String>>) -> Set<
    Seq<char>,
> {
    fields.dom().union(variants.dom())
}

/// Registered names not yet seen.
pub open spec fn unseen(
    fields: Map<Seq<char>, NameMap<CoreType>>,
    variants: Map<Seq<char>, Vec<String>>,
    seen: Set<Seq<char>>,
) -> nat {
    registered(fields, variants).difference(seen).len()
}

/// The tables the analysis reads are well formed.
pub open spec fn tables_wf(adt_fields: &NameMap<NameMap<CoreType>>, adt_variants: &NameMap<Vec<String>>) -> bool {
    &&& adt_fields.wf()
    &&& adt_variants.wf()
    &&& forall|k: Seq<char>| #[trigger] adt_fields@.contains_key(k) ==> adt_fields@[k].wf()
}

/// Seeing more names leaves no more unseen.
proof fn lemma_unseen_mono(
    fields: Map<Seq<char>, NameMap<CoreType>>,
    variants: Map<Seq<char>, Vec<String>>,
    a: Set<Seq<char>>,
    b: Set<Seq<char>>,
)
    requires
        fields.dom().finite(),
        variants.dom().finite(),
        a.subset_of(b),
    ensures
        unseen(fields, variants, b) <= unseen(fields, variants, a),
{
    let r = registered(fields, variants);
    vstd::set_lib::lemma_len_subset(r.difference(b), r.difference(a));
}

/// Every type of `done` is settled.
pub open spec fn all_types_settled(affine: Set<Seq<char>>, done: Set<TypeModel>, seen: Set<Seq<char>>) -> bool {
    forall|m: TypeModel| #[trigger] done.contains(m) ==> settled(affine, m, seen)
}

/// Settledness of a set of types survives seeing more names.
proof fn lemma_types_settled_mono(affine: Set<Seq<char>>, done: Set<TypeModel>, a: Set<Seq<char>>, b: Set<Seq<char>>)
    requires
        all_types_settled(affine, done, a),
        a.subset_of(b),
    ensures
        all_types_settled(affine, done, b),
{
    assert forall|m: TypeModel| #[trigger] done.contains(m) implies settled(affine, m, b) by {
        lemma_settled_mono(affine, m, a, b);
    }
}

/// Closedness survives seeing a new name put on the stack.
proof fn lemma_closed_push(
    affine: Set<Seq<char>>,
    fields: Map<Seq<char>, NameMap<CoreType>>,
    variants: Map<Seq<char>, Vec<String>>,
    seen: Set<Seq<char>>,
    stack: Set<Seq<char>>,
    name: Seq<char>,
)
    requires
        closed(affine, fields, variants, seen, stack),
    ensures
        closed(affine, fields, variants, seen.insert(name), stack.insert(name)),
{
    let s2 = seen.insert(name);
    assert forall|n: Seq<char>, m: TypeModel| #![trigger s2.contains(n), field_types(fields, variants, n).contains(m)]
        s2.contains(n) && !stack.insert(name).contains(n) && field_types(fields, variants, n).contains(m) implies settled(
        affine,
        m,
        s2,
    ) by {
        assert(seen.contains(n));
        lemma_settled_mono(affine, m, seen, s2);
    }
}

/// One element containing affine state makes the list contain it.
proof fn lemma_any_contains_via_at(affine: Set<Seq<char>>, s: Seq<TypeModel>, i: int, r: Set<Seq<char>>)
    requires
        0 <= i < s.len(),
        contains_via(affine, s[i], r),
    ensures
        any_contains_via(affine, s, r),
    decreases s.len(),
{
    if i < s.len() - 1 {
        lemma_any_contains_via_at(affine, s.drop_last(), i, r);
    }
}

/// Whether a core type contains affine resource state, exploring each registered
/// nominal type at most once.
fn contains_affine_inner(
    ownership: &OwnershipState,
    adt_fields: &NameMap<NameMap<CoreType>>,
    adt_variants: &NameMap<Vec<String>>,
    core_type: &CoreType,
    visited: &mut NameMap<()>,
    Ghost(stack): Ghost<Set<Seq<char>>>,
) -> (r: bool)
    requires
        ownership.wf(),
        tables_wf(adt_fields, adt_variants),
        old(visited).wf(),
        closed(ownership.model().affine_resource_types, adt_fields@, adt_variants@, old(visited)@.dom(), stack),
    ensures
        final(visited).wf(),
        old(visited)@.dom().subset_of(final(visited)@.dom()),
        r ==> contains_affine(ownership.model().affine_resource_types, adt_fields@, adt_variants@, model_of(*core_type)),
        !r ==> closed(ownership.model().affine_resource_types, adt_fields@, adt_variants@, final(visited)@.dom(), stack)
            && settled(ownership.model().affine_resource_types, model_of(*core_type), final(visited)@.dom()),
    decreases unseen(adt_fields@, adt_variants@, old(visited)@.dom()), 1int, core_type,
{
    let ghost affine = ownership.model().affine_resource_types;
    let ghost start = visited@.dom();
    proof {
        adt_fields.lemma_finite();
        adt_variants.lemma_finite();
    }
    match core_type {
        CoreType::Array(element_type) => {
            let r = contains_affine_inner(ownership, adt_fields, adt_variants, &**element_type, visited, Ghost(stack));
            proof {
                if r {
                    let e = model_of(**element_type);
                    let k = choose|k: nat| #[trigger] contains_via(affine, e, reaching(affine, adt_fields@, adt_variants@, k));
                    assert(contains_via(affine, model_of(*core_type), reaching(affine, adt_fields@, adt_variants@, k)));
                }
            }
            r
        },
        CoreType::Generic { name, type_args } => {
            if ownership.is_affine_resource_type_name(name.as_str()) {
                proof {
                    assert(contains_via(affine, model_of(*core_type), reaching(affine, adt_fields@, adt_variants@, 0)));
                }
                return true;
            }
            let ghost ms = models_of(type_args@);
            proof {
                lemma_models_of(type_args@);
            }
            let mut i: usize = 0;
            while i < type_args.len()
                invariant
                    ownership.wf(),
                    tables_wf(adt_fields, adt_variants),
                    adt_fields@.dom().finite(),
                    adt_variants@.dom().finite(),
                    affine == ownership.model().affine_resource_types,
                    start == old(visited)@.dom(),
                    *core_type == (CoreType::Generic { name: *name, type_args: *type_args }),
                    ms == models_of(type_args@),
                    ms.len() == type_args@.len(),
                    forall|j: int| 0 <= j < type_args@.len() ==> #[trigger] ms[j] == model_of(type_args@[j]),
                    i <= type_args@.len(),
                    visited.wf(),
                    start.subset_of(visited@.dom()),
                    closed(affine, adt_fields@, adt_variants@, visited@.dom(), stack),
                    all_settled(affine, ms.take(i as int), visited@.dom()),
                decreases type_args@.len() - i,
            {
                proof {
                    vstd::std_specs::vec::axiom_vec_index_decreases(*type_args, i as int);
                    lemma_unseen_mono(adt_fields@, adt_variants@, start, visited@.dom());
                }
                let ghost before = visited@.dom();
                if contains_affine_inner(ownership, adt_fields, adt_variants, &type_args[i], visited, Ghost(stack)) {
                    proof {
                        let arg = model_of(type_args@[i as int]);
                        let k = choose|k: nat| #[trigger] contains_via(affine, arg, reaching(affine, adt_fields@, adt_variants@, k));
                        lemma_any_contains_via_at(affine, ms, i as int, reaching(affine, adt_fields@, adt_variants@, k));
                        assert(contains_via(affine, model_of(*core_type), reaching(affine, adt_fields@, adt_variants@, k)));
                    }
                    return true;
                }
                proof {
                    lemma_all_settled_mono(affine, ms.take(i as int), before, visited@.dom());
                    assert(ms.take(i + 1).drop_last() =~= ms.take(i as int));
                    assert(ms.take(i + 1).last() == ms[i as int]);
                }
                i = i + 1;
            }
            proof {
                assert(ms.take(ms.len() as int) =~= ms);
                lemma_unseen_mono(adt_fields@, adt_variants@, start, visited@.dom());
            }
            let ghost before = visited@.dom();
            if known_fields_contain_affine_resource(
                ownership,
                adt_fields,
                adt_variants,
                name.as_str(),
                visited,
                Ghost(stack),
                Ghost(*core_type),
            ) {
                proof {
                    let k = choose|k: nat| #[trigger] reaching(affine, adt_fields@, adt_variants@, k).contains(name@);
                    assert(contains_via(affine, model_of(*core_type), reaching(affine, adt_fields@, adt_variants@, k)));
                }
                return true;
            }
            proof {
                lemma_all_settled_mono(affine, ms, before, visited@.dom());
            }
            false
        },
        _ => false,
    }
}

/// Whether the registered fields of `owner_name`, or of its variants, contain affine
/// resource state; a name already seen is not explored again.
fn known_fields_contain_affine_resource(
    ownership: &OwnershipState,
    adt_fields: &NameMap<NameMap<CoreType>>,
    adt_variants: &NameMap<Vec<String>>,
    owner_name: &str,
    visited: &mut NameMap<()>,
    Ghost(stack): Ghost<Set<Seq<char>>>,
    Ghost(origin): Ghost<CoreType>,
) -> (r: bool)
    requires
        ownership.wf(),
        tables_wf(adt_fields, adt_variants),
        old(visited).wf(),
        closed(ownership.model().affine_resource_types, adt_fields@, adt_variants@, old(visited)@.dom(), stack),
    ensures
        final(visited).wf(),
        old(visited)@.dom().subset_of(final(visited)@.dom()),
        r ==> exists|k: nat| #[trigger] reaching(
            ownership.model().affine_resource_types,
            adt_fields@,
            adt_variants@,
            k,
        ).contains(owner_name@),
        !r ==> closed(ownership.model().affine_resource_types, adt_fields@, adt_variants@, final(visited)@.dom(), stack)
            && final(visited)@.dom().contains(owner_name@),
    decreases unseen(adt_fields@, adt_variants@, old(visited)@.dom()), 0int, origin,
{
    let ghost affine = ownership.model().affine_resource_types;
    let ghost start = visited@.dom();
    let ghost name = owner_name@;
    proof {
        adt_fields.lemma_finite();
        adt_variants.lemma_finite();
    }
    if visited.contains_key(owner_name) {
        return false;
    }
    visited.insert(owned(owner_name), ());
    let ghost stack2 = stack.insert(name);
    let ghost pushed = visited@.dom();
    proof {
        assert(pushed =~= start.insert(name));
        lemma_closed_push(affine, adt_fields@, adt_variants@, start, stack, name);
    }
    let ghost mut done: Set<TypeModel> = Set::empty();
    match adt_fields.get(owner_name) {
        Some(fields) => {
            proof {
                fields.lemma_view();
                registered(adt_fields@, adt_variants@).lemma_set_insert_diff_decreases(start, name);
            }
            let count = fields.len();
            let mut i: usize = 0;
            while i < count
                invariant
                    ownership.wf(),
                    tables_wf(adt_fields, adt_variants),
                    adt_fields@.dom().finite(),
                    adt_variants@.dom().finite(),
                    affine == ownership.model().affine_resource_types,
                    start == old(visited)@.dom(),
                    name == owner_name@,
                    adt_fields@.contains_key(name),
                    *fields == adt_fields@[name],
                    fields.wf(),
                    count == fields.entries_spec().len(),
                    i <= count,
                    visited.wf(),
                    pushed.subset_of(visited@.dom()),
                    start.subset_of(pushed),
                    unseen(adt_fields@, adt_variants@, pushed) < unseen(adt_fields@, adt_variants@, start),
                    stack2 == stack.insert(name),
                    closed(affine, adt_fields@, adt_variants@, visited@.dom(), stack2),
                    all_types_settled(affine, done, visited@.dom()),
                    forall|e: int| 0 <= e < i ==> done.contains(#[trigger] model_of(fields.entries_spec()[e].1)),
                    done.subset_of(field_types(adt_fields@, adt_variants@, name)),
                decreases count - i,
            {
                proof {
                    lemma_unseen_mono(adt_fields@, adt_variants@, pushed, visited@.dom());
                    fields.lemma_view();
                }
                let (_, field_type) = fields.entry_at(i);
                let ghost before = visited@.dom();
                if contains_affine_inner(ownership, adt_fields, adt_variants, field_type, visited, Ghost(stack2)) {
                    proof {
                        let m = model_of(*field_type);
                        assert(field_types(adt_fields@, adt_variants@, name).contains(m)) by {
                            assert(owner_field_types(adt_fields@, name).contains(m)) by {
                                assert(adt_fields@[name]@.contains_key(fields.entries_spec()[i as int].0@));
                            }
                        }
                        let k = choose|k: nat| #[trigger] contains_via(affine, m, reaching(affine, adt_fields@, adt_variants@, k));
                        assert(reaching(affine, adt_fields@, adt_variants@, k + 1).contains(name));
                    }
                    return true;
                }
                proof {
                    let m = model_of(*field_type);
                    lemma_types_settled_mono(affine, done, before, visited@.dom());
                    assert(field_types(adt_fields@, adt_variants@, name).contains(m)) by {
                        assert(owner_field_types(adt_fields@, name).contains(m)) by {
                            assert(adt_fields@[name]@.contains_key(fields.entries_spec()[i as int].0@));
                        }
                    }
                    done = done.insert(m);
                }
                i = i + 1;
            }
            proof {
                fields.lemma_view();
                assert forall|m: TypeModel| #[trigger] owner_field_types(adt_fields@, name).contains(m) implies done.contains(m) by {
                    let f = choose|f: Seq<char>| #[trigger] adt_fields@[name]@.contains_key(f) && model_of(adt_fields@[name]@[f]) == m;
                    let e = choose|e: int| 0 <= e < fields.entries_spec().len() && fields.entries_spec()[e].0@ == f;
                    assert(done.contains(model_of(fields.entries_spec()[e].1)));
                }
            }
        },
        None => {
            proof {
                assert(owner_field_types(adt_fields@, name) =~= Set::<TypeModel>::empty());
            }
        },
    }
    let ghost after_fields = visited@.dom();
    let ghost owner_done = done;
    proof {
        assert(pushed.subset_of(after_fields));
    }
    match adt_variants.get(owner_name) {
        Some(variant_names) => {
            proof {
                registered(adt_fields@, adt_variants@).lemma_set_insert_diff_decreases(start, name);
            }
            let mut j: usize = 0;
            while j < variant_names.len()
                invariant
                    ownership.wf(),
                    tables_wf(adt_fields, adt_variants),
                    adt_fields@.dom().finite(),
                    adt_variants@.dom().finite(),
                    affine == ownership.model().affine_resource_types,
                    start == old(visited)@.dom(),
                    name == owner_name@,
                    adt_variants@.contains_key(name),
                    *variant_names == adt_variants@[name],
                    j <= variant_names@.len(),
                    visited.wf(),
                    pushed.subset_of(visited@.dom()),
                    start.subset_of(pushed),
                    unseen(adt_fields@, adt_variants@, pushed) < unseen(adt_fields@, adt_variants@, start),
                    stack2 == stack.insert(name),
                    closed(affine, adt_fields@, adt_variants@, visited@.dom(), stack2),
                    all_types_settled(affine, done, visited@.dom()),
                    owner_field_types(adt_fields@, name).subset_of(done),
                    forall|v: int| 0 <= v < j ==> owner_field_types(adt_fields@, #[trigger] variant_names@[v]@).subset_of(done),
                    done.subset_of(field_types(adt_fields@, adt_variants@, name)),
                decreases variant_names@.len() - j,
            {
                let variant = variant_names[j].as_str();
                let ghost vname = variant@;
                match adt_fields.get(variant) {
                    Some(fields) => {
                        proof {
                            fields.lemma_view();
                        }
                        let count = fields.len();
                        let mut i: usize = 0;
                        while i < count
                            invariant
                                ownership.wf(),
                                tables_wf(adt_fields, adt_variants),
                                adt_fields@.dom().finite(),
                                adt_variants@.dom().finite(),
                                affine == ownership.model().affine_resource_types,
                                start == old(visited)@.dom(),
                                name == owner_name@,
                                adt_variants@.contains_key(name),
                                *variant_names == adt_variants@[name],
                                j < variant_names@.len(),
                                vname == variant_names@[j as int]@,
                                adt_fields@.contains_key(vname),
                                *fields == adt_fields@[vname],
                                fields.wf(),
                                count == fields.entries_spec().len(),
                                i <= count,
                                visited.wf(),
                                pushed.subset_of(visited@.dom()),
                                start.subset_of(pushed),
                    start.subset_of(pushed),
                                unseen(adt_fields@, adt_variants@, pushed) < unseen(adt_fields@, adt_variants@, start),
                                stack2 == stack.insert(name),
                                closed(affine, adt_fields@, adt_variants@, visited@.dom(), stack2),
                                all_types_settled(affine, done, visited@.dom()),
                                owner_field_types(adt_fields@, name).subset_of(done),
                                forall|v: int| 0 <= v < j ==> owner_field_types(adt_fields@, #[trigger] variant_names@[v]@).subset_of(
                                    done,
                                ),
                                forall|e: int| 0 <= e < i ==> done.contains(#[trigger] model_of(fields.entries_spec()[e].1)),
                                done.subset_of(field_types(adt_fields@, adt_variants@, name)),
                            decreases count - i,
                        {
                            proof {
                                lemma_unseen_mono(adt_fields@, adt_variants@, pushed, visited@.dom());
                                fields.lemma_view();
                            }
                            let (_, field_type) = fields.entry_at(i);
                            let ghost before = visited@.dom();
                            let ghost m = model_of(*field_type);
                            proof {
                                assert(owner_field_types(adt_fields@, vname).contains(m)) by {
                                    assert(adt_fields@[vname]@.contains_key(fields.entries_spec()[i as int].0@));
                                }
                                assert(field_types(adt_fields@, adt_variants@, name).contains(m)) by {
                                    assert(owner_field_types(adt_fields@, variant_names@[j as int]@).contains(m));
                                }
                            }
                            if contains_affine_inner(ownership, adt_fields, adt_variants, field_type, visited, Ghost(stack2)) {
                                proof {
                                    let k = choose|k: nat| #[trigger] contains_via(affine, m, reaching(affine, adt_fields@, adt_variants@, k));
                                    assert(reaching(affine, adt_fields@, adt_variants@, k + 1).contains(name));
                                }
                                return true;
                            }
                            proof {
                                lemma_types_settled_mono(affine, done, before, visited@.dom());
                                done = done.insert(m);
                            }
                            i = i + 1;
                        }
                        proof {
                            fields.lemma_view();
                            assert forall|m: TypeModel| #[trigger] owner_field_types(adt_fields@, vname).contains(m) implies done.contains(m) by {
                                let f = choose|f: Seq<char>| #[trigger] adt_fields@[vname]@.contains_key(f) && model_of(adt_fields@[vname]@[f]) == m;
                                let e = choose|e: int| 0 <= e < fields.entries_spec().len() && fields.entries_spec()[e].0@ == f;
                                assert(done.contains(model_of(fields.entries_spec()[e].1)));
                            }
                        }
                    },
                    None => {
                        proof {
                            assert(owner_field_types(adt_fields@, vname) =~= Set::<TypeModel>::empty());
                        }
                    },
                }
                j = j + 1;
            }
            proof {
                assert forall|m: TypeModel| #[trigger] field_types(adt_fields@, adt_variants@, name).contains(m) implies done.contains(m) by {
                    if !owner_field_types(adt_fields@, name).contains(m) {
                        let v = choose|v: int| 0 <= v < variant_names@.len() && #[trigger] owner_field_types(
                            adt_fields@,
                            variant_names@[v]@,
                        ).contains(m);
                    }
                }
            }
        },
        None => {
            proof {
                assert forall|m: TypeModel| #[trigger] field_types(adt_fields@, adt_variants@, name).contains(m) implies done.contains(m) by {
                }
            }
        },
    }
    proof {
        let seen = visited@.dom();
        assert forall|n: Seq<char>, m: TypeModel| #![trigger seen.contains(n), field_types(adt_fields@, adt_variants@, n).contains(m)]
            seen.contains(n) && !stack.contains(n) && field_types(adt_fields@, adt_variants@, n).contains(m) implies settled(
            affine,
            m,
            seen,
        ) by {
            if n == name {
                assert(done.contains(m));
            } else {
                assert(!stack2.contains(n));
            }
        }
    }
    false
}

/// Whether a core type contains affine resource state: an affine nominal type as
/// itself, an array element or a type argument, or one reached through the registered
/// fields of the nominal types it names and of their variants.
pub fn core_type_contains_affine_resource(
    ownership: &OwnershipState,
    adt_fields: &NameMap<NameMap<CoreType>>,
    adt_variants: &NameMap<Vec<String>>,
    core_type: &CoreType,
) -> (r: bool)
    requires
        ownership.wf(),
        tables_wf(adt_fields, adt_variants),
    ensures
        r == contains_affine(ownership.model().affine_resource_types, adt_fields@, adt_variants@, model_of(*core_type)),
{
    let mut visited: NameMap<()> = NameMap::new();
    let r = contains_affine_inner(ownership, adt_fields, adt_variants, core_type, &mut visited, Ghost(Set::empty()));
    proof {
        let affine = ownership.model().affine_resource_types;
        if !r {
            assert forall|k: nat| !#[trigger] contains_via(affine, model_of(*core_type), reaching(affine, adt_fields@, adt_variants@, k)) by {
                lemma_closed_unreached(affine, adt_fields@, adt_variants@, visited@.dom(), k);
                lemma_settled_excludes(affine, model_of(*core_type), visited@.dom(), reaching(affine, adt_fields@, adt_variants@, k));
            }
        }
    }
    r
}

/// Make `name` an owner binding of `core_type` when that type holds affine resource
/// state; otherwise change nothing.
pub fn register_owner_binding_if_affine(
    ownership: &mut OwnershipState,
    adt_fields: &NameMap<NameMap<CoreType>>,
    adt_variants: &NameMap<Vec<String>>,
    name: String,
    core_type: &CoreType,
    span: Span,
)
    requires
        old(ownership).wf(),
        tables_wf(adt_fields, adt_variants),
    ensures
        final(ownership).wf(),
        !contains_affine(old(ownership).model().affine_resource_types, adt_fields@, adt_variants@, model_of(*core_type))
            ==> final(ownership).model() == old(ownership).model(),
        contains_affine(old(ownership).model().affine_resource_types, adt_fields@, adt_variants@, model_of(*core_type))
            ==> final(ownership).model() == old(ownership).model().owner_registered(
            name@,
            OwnerBinding { type_label: final(ownership).model().owners[name@].type_label, source_location: span, moved_at: None },
        ) && final(ownership).model().owners[name@].type_label@ == display(model_of(*core_type)),
{
    if !core_type_contains_affine_resource(ownership, adt_fields, adt_variants, core_type) {
        return;
    }
    ownership.register_owner_binding(name, core_type.display_name(), span);
}

/// Register the ownership of a parameter: an owned parameter replaces any earlier
/// binding of its name and owns its value when the type holds affine state; a borrowed
/// parameter becomes a borrow binding.
pub fn register_parameter_ownership(
    ownership: &mut OwnershipState,
    adt_fields: &NameMap<NameMap<CoreType>>,
    adt_variants: &NameMap<Vec<String>>,
    parameter: &Parameter,
    core_type: &CoreType,
)
    requires
        old(ownership).wf(),
        tables_wf(adt_fields, adt_variants),
    ensures
        final(ownership).wf(),
        parameter.borrow_kind != BorrowKind::Owned ==> final(ownership).model() == old(ownership).model().borrow_registered(
            parameter.name@,
            BorrowBinding { borrow_kind: parameter.borrow_kind, source_location: parameter.span },
        ),
        parameter.borrow_kind == BorrowKind::Owned && !contains_affine(
            old(ownership).model().affine_resource_types,
            adt_fields@,
            adt_variants@,
            model_of(*core_type),
        ) ==> final(ownership).model() == old(ownership).model().binding_cleared(parameter.name@),
        parameter.borrow_kind == BorrowKind::Owned && contains_affine(
            old(ownership).model().affine_resource_types,
            adt_fields@,
            adt_variants@,
            model_of(*core_type),
        ) ==> final(ownership).model() == old(ownership).model().binding_cleared(parameter.name@).owner_registered(
            parameter.name@,
            OwnerBinding {
                type_label: final(ownership).model().owners[parameter.name@].type_label,
                source_location: parameter.span,
                moved_at: None,
            },
        ) && final(ownership).model().owners[parameter.name@].type_label@ == display(model_of(*core_type)),
{
    match parameter.borrow_kind {
        BorrowKind::Owned => {
            ownership.clear_binding_ownership(parameter.name.as_str());
            register_owner_binding_if_affine(
                ownership,
                adt_fields,
                adt_variants,
                owned(parameter.name.as_str()),
                core_type,
                parameter.span,
            );
        },
        _ => {
            ownership.register_borrow_binding(owned(parameter.name.as_str()), parameter.borrow_kind, parameter.span);
        },
    }
}

} // verus!
