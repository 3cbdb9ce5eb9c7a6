//! Named error sets: declaration, expansion into leaf errors, and the lints on
//! `errors` clauses that spell sets and leaves.

use vstd::prelude::*;
use crate::environment::TypeEnvironment;
use crate::error_families::{error_leaf_model, family_index, lemma_family_index, stdlib_error_core_type, stdlib_error_family, StdlibErrorFamily};
use crate::errors::{diagnostic_span_of, TypeError, Warning};
use crate::name_map::{entry_keys, keys_ascending, lemma_ascending_distinct, NameMap};
use crate::symbol_table::{SymbolInfo, SymbolType, Visibility};
use crate::text::{contains, ends_with, has_infix, has_suffix, lemma_seq_less_irreflexive, lemma_seq_less_total,
    lemma_seq_less_transitive, names_contain, names_equal, names_of, owned, seq_less, str_eq, str_less, comma, joined,
    join_names_slice};
use crate::token::{Position, Span};
use crate::ast::Type;
use crate::type_rules::{annotation_model, ast_type_to_core_type, converted};
use crate::types::{display, model_of, models_of, CoreType, TypeModel};

verus! {

/// One member named in an error-set declaration.
#[derive(Debug)]
pub struct ErrorSetMember {
    /// Member name as written.
    pub name: String,
    /// Where the member is written.
    pub span: Span,
}

/// A declared named error set.
#[derive(Debug)]
pub struct ErrorSetDeclarationInfo {
    /// Set name.
    pub name: String,
    /// Members in declaration order.
    pub members: Vec<ErrorSetMember>,
    /// Declared visibility.
    pub visibility: Visibility,
    /// Declaration site.
    pub span: Span,
}

/// Everything error-name resolution reads: the stdlib families, the registered
/// types, the symbols visible by name, and the declared sets.
pub ghost struct ErrorScope {
    pub families: Seq<StdlibErrorFamily>,
    pub types: Map<Seq<char>, TypeModel>,
    pub symbols: Map<Seq<char>, SymbolInfo>,
    pub sets: Map<Seq<char>, ErrorSetDeclarationInfo>,
}

/// The character sequence `Error`.
pub open spec fn error_word() -> Seq<char> {
    seq!['E', 'r', 'r', 'o', 'r']
}

/// The character sequence `Error.`.
pub open spec fn error_word_dot() -> Seq<char> {
    seq!['E', 'r', 'r', 'o', 'r', '.']
}

/// Member names of a family, in family order.
pub open spec fn member_names(f: StdlibErrorFamily) -> Seq<Seq<char>> {
    f.members@.map_values(|m: String| m@)
}

/// `name` is a member of some stdlib family.
pub open spec fn in_some_family(families: Seq<StdlibErrorFamily>, name: Seq<char>) -> bool {
    exists|i: int| 0 <= i < families.len() && #[trigger] member_names(families[i]).contains(name)
}

/// A nominal type of this name may be used as a leaf error.
pub open spec fn can_be_error_leaf(name: Seq<char>) -> bool {
    name != error_word() && (has_suffix(name, error_word()) || has_infix(name, error_word_dot()))
}

/// `name` is a named error set: a declared one or a stdlib family.
pub open spec fn is_set_name(sc: ErrorScope, name: Seq<char>) -> bool {
    sc.sets.contains_key(name) || family_index(sc.families, name) is Some
}

/// `name` is visible as a type: registered, or a visible type symbol.
pub open spec fn is_visible_type(sc: ErrorScope, name: Seq<char>) -> bool {
    sc.types.contains_key(name) || (sc.symbols.contains_key(name) && sc.symbols[name].symbol_type == SymbolType::Type)
}

/// `name` is a known leaf error rather than a named set.
pub open spec fn is_leaf_name(sc: ErrorScope, name: Seq<char>) -> bool {
    if name == error_word() || is_set_name(sc, name) {
        false
    } else if in_some_family(sc.families, name) {
        true
    } else {
        is_visible_type(sc, name) && can_be_error_leaf(name)
    }
}

/// `v` lists the names of `s` once each, in ascending order.
pub open spec fn lists_sorted(v: Seq<String>, s: Set<Seq<char>>) -> bool {
    keys_ascending(names_of(v)) && names_of(v).to_set() == s
}

/// Why an error name failed to expand.
pub ghost enum ExpansionFailure {
    /// Declared sets include each other; the names from the outermost one back to the repeat.
    Cycle { cycle: Seq<Seq<char>>, span: Span },
    /// A member names a visible type that is not an error.
    NonErrorSetMember { set_name: Seq<char>, member_name: Seq<char>, span: Span },
    /// A member names nothing known.
    UnknownErrorSetMember { set_name: Seq<char>, member_name: Seq<char>, span: Span },
    /// The name is neither a set nor a leaf error.
    Undeclared { name: Seq<char>, span: Span },
}

/// The diagnostic `e` reports the failure `f`.
pub open spec fn reports(e: TypeError, f: ExpansionFailure) -> bool {
    match f {
        ExpansionFailure::Cycle { cycle, span } => e matches TypeError::ErrorSetCycle { cycle: c, span: s }
            && c@ == joined(cycle, seq![' ', '-', '>', ' ']) && s == diagnostic_span_of(span),
        ExpansionFailure::NonErrorSetMember { set_name, member_name, span } => e matches TypeError::NonErrorSetMember {
            set_name: a,
            member_name: b,
            span: s,
        } && a@ == set_name && b@ == member_name && s == diagnostic_span_of(span),
        ExpansionFailure::UnknownErrorSetMember { set_name, member_name, span } => e matches TypeError::UnknownErrorSetMember {
            set_name: a,
            member_name: b,
            span: s,
        } && a@ == set_name && b@ == member_name && s == diagnostic_span_of(span),
        ExpansionFailure::Undeclared { name, span } => e matches TypeError::UndeclaredErrorType { name: a, span: s }
            && a@ == name && s == diagnostic_span_of(span),
    }
}

/// `v` is how an expansion of `name` to the leaves `s` is listed: a stdlib family's
/// members in family order, any other expansion in ascending order.
pub open spec fn listed_expansion(sc: ErrorScope, name: Seq<char>, v: Seq<String>, s: Set<Seq<char>>) -> bool {
    match family_index(sc.families, name) {
        Some(i) => names_of(v) == member_names(sc.families[i]),
        None => lists_sorted(v, s),
    }
}

/// The leaves of `names[i..]`, each expanded with no set open, added to `acc`;
/// the first failure in list order otherwise.
pub open spec fn resolution(sc: ErrorScope, names: Seq<Seq<char>>, span: Span, i: int, acc: Set<Seq<char>>) -> Result<
    Set<Seq<char>>,
    ExpansionFailure,
>
    decreases names.len() - i,
{
    if i < 0 || i >= names.len() {
        Ok(acc)
    } else {
        match expansion(sc, names[i], span, Seq::empty()) {
            Ok(leaves) => resolution(sc, names, span, i + 1, acc.union(leaves)),
            Err(f) => Err(f),
        }
    }
}

/// Display names of a list of types.
pub open spec fn displayed_names(ts: Seq<CoreType>) -> Set<Seq<char>>
    decreases ts.len(),
{
    if ts.len() == 0 {
        Set::empty()
    } else {
        displayed_names(ts.drop_last()).insert(display(model_of(ts.last())))
    }
}

/// The zero-width span at the start of a file.
pub open spec fn file_start_span() -> Span {
    Span { start: Position { line: 1, column: 1, offset: 0 }, end: Position { line: 1, column: 1, offset: 0 } }
}

/// `r` reports the resolution of `names`: the leaf types in ascending name order, or
/// the first failure.
pub open spec fn resolved(sc: ErrorScope, names: Seq<Seq<char>>, span: Span, r: Result<Vec<CoreType>, TypeError>) -> bool {
    let e = resolution(sc, names, span, 0, Set::empty());
    match r {
        Ok(v) => e matches Ok(s) && exists|q: Seq<Seq<char>>| #[trigger] keys_ascending(q) && q.to_set() == s
            && models_of(v@) == q.map_values(|n: Seq<char>| error_leaf_model(n)),
        Err(err) => e matches Err(f) && reports(err, f),
    }
}

/// Position of the first generic binding named `name`.
pub open spec fn first_binding(bindings: Seq<(String, CoreType)>, name: Seq<char>) -> Option<int> {
    if exists|k: int| 0 <= k < bindings.len() && #[trigger] bindings[k].0@ == name {
        Some(choose|k: int| 0 <= k < bindings.len() && #[trigger] bindings[k].0@ == name
            && forall|j: int| 0 <= j < k ==> bindings[j].0@ != name)
    } else {
        None
    }
}

/// A stdlib family that a lint may name in place of exactly the leaves `leaves`, of
/// which there are `n`.
pub open spec fn family_spells(f: StdlibErrorFamily, leaves: Set<Seq<char>>, n: nat) -> bool {
    f.warning_eligible && f.members@.len() == n && forall|j: int| 0 <= j < f.members@.len() ==> leaves.contains(
        #[trigger] f.members@[j]@,
    )
}

/// Family `a` is preferred to family `b`: lower rank, then fewer members, then name.
pub open spec fn family_preferred(a: StdlibErrorFamily, b: StdlibErrorFamily) -> bool {
    a.specificity_rank < b.specificity_rank || (a.specificity_rank == b.specificity_rank && (a.members@.len()
        < b.members@.len() || (a.members@.len() == b.members@.len() && seq_less(a.name@, b.name@))))
}

/// The declared set `k` expands to exactly `leaves`.
pub open spec fn set_spells(sc: ErrorScope, k: Seq<char>, span: Span, leaves: Set<Seq<char>>) -> bool {
    sc.sets.contains_key(k) && expansion(sc, k, span, Seq::empty()) == Ok::<Set<Seq<char>>, ExpansionFailure>(leaves)
}

/// The name a lint suggests for exactly the leaves `leaves`, of which there are `n`:
/// the least declared set that expands to them; else the preferred eligible family,
/// the first of equally preferred ones; none for fewer than two leaves.
pub open spec fn preferred_name_for(sc: ErrorScope, leaves: Set<Seq<char>>, n: nat, span: Span) -> Option<Seq<char>> {
    if n <= 1 {
        None
    } else if exists|k: Seq<char>| #[trigger] set_spells(sc, k, span, leaves) {
        Some(choose|k: Seq<char>| #[trigger] set_spells(sc, k, span, leaves) && forall|k2: Seq<char>| #[trigger] set_spells(
            sc,
            k2,
            span,
            leaves,
        ) ==> k2 == k || seq_less(k, k2))
    } else if exists|b: int| 0 <= b < sc.families.len() && #[trigger] family_spells(sc.families[b], leaves, n) {
        let b = choose|b: int| 0 <= b < sc.families.len() && #[trigger] family_spells(sc.families[b], leaves, n) && (forall|g: int|
            0 <= g < sc.families.len() && family_spells(sc.families[g], leaves, n) ==> !family_preferred(sc.families[g], sc.families[b]))
            && (forall|g: int| 0 <= g < b && family_spells(sc.families[g], leaves, n) ==> family_preferred(sc.families[b], sc.families[g]));
        Some(sc.families[b].name@)
    } else {
        None
    }
}

/// A lint on an `errors` clause, by its text.
pub ghost enum LintModel {
    ReplaceableErrorList { family_name: Seq<char>, replaceable_errors: Seq<char> },
    ErrorSetRedundantMember { redundant_member: Seq<char>, covering_set: Seq<char> },
    ErrorSetOverlap { narrower_set: Seq<char>, broader_set: Seq<char> },
    ErrorSetUnusedMembers { set_name: Seq<char>, unused_members: Seq<char>, suggested_errors: Seq<char> },
}

/// `w` is the lint `l` reported at `span`, with no suppression annotation.
pub open spec fn is_lint(w: Warning, l: LintModel, span: Span) -> bool {
    match l {
        LintModel::ReplaceableErrorList { family_name, replaceable_errors } => w matches Warning::ReplaceableErrorList {
            family_name: a,
            replaceable_errors: b,
            span: s,
            suppression_annotation: None,
        } && a@ == family_name && b@ == replaceable_errors && s == diagnostic_span_of(span),
        LintModel::ErrorSetRedundantMember { redundant_member, covering_set } => w matches Warning::ErrorSetRedundantMember {
            redundant_member: a,
            covering_set: b,
            span: s,
            suppression_annotation: None,
        } && a@ == redundant_member && b@ == covering_set && s == diagnostic_span_of(span),
        LintModel::ErrorSetOverlap { narrower_set, broader_set } => w matches Warning::ErrorSetOverlap {
            narrower_set: a,
            broader_set: b,
            span: s,
            suppression_annotation: None,
        } && a@ == narrower_set && b@ == broader_set && s == diagnostic_span_of(span),
        LintModel::ErrorSetUnusedMembers { set_name, unused_members, suggested_errors } => w matches Warning::ErrorSetUnusedMembers {
            set_name: a,
            unused_members: b,
            suggested_errors: c,
            span: s,
            suppression_annotation: None,
        } && a@ == set_name && b@ == unused_members && c@ == suggested_errors && s == diagnostic_span_of(span),
    }
}

/// `after` is `before` followed by the lints `lints`, reported at `span`.
pub open spec fn appended_lints(before: Seq<Warning>, after: Seq<Warning>, lints: Seq<LintModel>, span: Span) -> bool {
    &&& after.len() == before.len() + lints.len()
    &&& after.subrange(0, before.len() as int) == before
    &&& forall|j: int| 0 <= j < lints.len() ==> is_lint(after[before.len() + j], #[trigger] lints[j], span)
}

/// Appending lints twice appends their concatenation.
pub proof fn lemma_appended_chain(
    a: Seq<Warning>,
    b: Seq<Warning>,
    c: Seq<Warning>,
    l1: Seq<LintModel>,
    l2: Seq<LintModel>,
    span: Span,
)
    requires
        appended_lints(a, b, l1, span),
        appended_lints(b, c, l2, span),
    ensures
        appended_lints(a, c, l1 + l2, span),
{
    assert(c.subrange(0, a.len() as int) =~= a) by {
        assert forall|i: int| 0 <= i < a.len() implies c[i] == a[i] by {
            assert(c.subrange(0, b.len() as int)[i] == b[i]);
            assert(b.subrange(0, a.len() as int)[i] == a[i]);
        }
    }
    assert forall|j: int| 0 <= j < (l1 + l2).len() implies is_lint(c[a.len() + j], #[trigger] (l1 + l2)[j], span) by {
        if j < l1.len() {
            assert(is_lint(b[a.len() + j], l1[j], span));
            assert(c.subrange(0, b.len() as int)[a.len() + j] == b[a.len() + j]);
        } else {
            assert(is_lint(c[b.len() + (j - l1.len())], l2[j - l1.len()], span));
        }
    }
}

/// `name` is linted as a named set rather than a leaf.
pub open spec fn warning_set_name(sc: ErrorScope, name: Seq<char>) -> bool {
    sc.sets.contains_key(name) || match family_index(sc.families, name) {
        Some(i) => member_names(sc.families[i]) != seq![name],
        None => false,
    }
}

/// The named sets of an `errors` clause that expand, with their leaves, in clause order.
pub open spec fn source_sets(sc: ErrorScope, names: Seq<Seq<char>>, span: Span) -> Seq<(Seq<char>, Set<Seq<char>>)>
    decreases names.len(),
{
    if names.len() == 0 {
        Seq::empty()
    } else {
        let rest = source_sets(sc, names.drop_last(), span);
        let n = names.last();
        if warning_set_name(sc, n) && expansion(sc, n, span, Seq::empty()) is Ok {
            rest.push((n, expansion(sc, n, span, Seq::empty())->Ok_0))
        } else {
            rest
        }
    }
}

/// The leaf names of an `errors` clause, in clause order.
pub open spec fn source_leaves(sc: ErrorScope, names: Seq<Seq<char>>) -> Seq<Seq<char>>
    decreases names.len(),
{
    if names.len() == 0 {
        Seq::empty()
    } else {
        let rest = source_leaves(sc, names.drop_last());
        if warning_set_name(sc, names.last()) {
            rest
        } else {
            rest.push(names.last())
        }
    }
}

/// Each name at its first occurrence.
pub open spec fn first_occurrences(s: Seq<Seq<char>>) -> Seq<Seq<char>>
    decreases s.len(),
{
    if s.len() == 0 {
        Seq::empty()
    } else {
        let d = first_occurrences(s.drop_last());
        if d.contains(s.last()) {
            d
        } else {
            d.push(s.last())
        }
    }
}

/// A clause of two or more leaves and no sets that one named set spells exactly.
pub open spec fn replaceable_lints(sc: ErrorScope, names: Seq<Seq<char>>, expanded: Set<Seq<char>>, span: Span) -> Seq<
    LintModel,
> {
    if source_sets(sc, names, span).len() == 0 && names.len() > 1 {
        match preferred_name_for(sc, expanded, expanded.len(), span) {
            Some(set_name) => seq![
                LintModel::ReplaceableErrorList {
                    family_name: set_name,
                    replaceable_errors: joined(first_occurrences(source_leaves(sc, names)), comma()),
                },
            ],
            None => Seq::empty(),
        }
    } else {
        Seq::empty()
    }
}

/// Position of the first set that covers `leaf`.
pub open spec fn first_cover(sets: Seq<(Seq<char>, Set<Seq<char>>)>, leaf: Seq<char>) -> Option<int>
    decreases sets.len(),
{
    if sets.len() == 0 {
        None
    } else {
        match first_cover(sets.drop_last(), leaf) {
            Some(i) => Some(i),
            None => if sets.last().1.contains(leaf) {
                Some(sets.len() - 1)
            } else {
                None
            },
        }
    }
}

/// Each listed leaf that a listed set covers, with the first such set.
pub open spec fn redundant_lints(leaves: Seq<Seq<char>>, sets: Seq<(Seq<char>, Set<Seq<char>>)>) -> Seq<LintModel>
    decreases leaves.len(),
{
    if leaves.len() == 0 {
        Seq::empty()
    } else {
        let rest = redundant_lints(leaves.drop_last(), sets);
        match first_cover(sets, leaves.last()) {
            Some(i) => rest.push(
                LintModel::ErrorSetRedundantMember { redundant_member: leaves.last(), covering_set: sets[i].0 },
            ),
            None => rest,
        }
    }
}

/// The overlap lint of listed sets `i` and `j`, if one includes the other.
pub open spec fn pair_lint(sets: Seq<(Seq<char>, Set<Seq<char>>)>, i: int, j: int) -> Seq<LintModel> {
    if sets[i].1.subset_of(sets[j].1) {
        seq![LintModel::ErrorSetOverlap { narrower_set: sets[i].0, broader_set: sets[j].0 }]
    } else if sets[j].1.subset_of(sets[i].1) {
        seq![LintModel::ErrorSetOverlap { narrower_set: sets[j].0, broader_set: sets[i].0 }]
    } else {
        Seq::empty()
    }
}

/// Overlap lints of set `i` with the sets after it and before `j`.
pub open spec fn pairs_with(sets: Seq<(Seq<char>, Set<Seq<char>>)>, i: int, j: int) -> Seq<LintModel>
    decreases j - i,
{
    if j <= i + 1 {
        Seq::empty()
    } else {
        pairs_with(sets, i, j - 1) + pair_lint(sets, i, j - 1)
    }
}

/// Overlap lints of the sets before `i` with every later set.
pub open spec fn overlap_lints(sets: Seq<(Seq<char>, Set<Seq<char>>)>, i: int) -> Seq<LintModel>
    decreases i,
{
    if i <= 0 {
        Seq::empty()
    } else {
        overlap_lints(sets, i - 1) + pairs_with(sets, i - 1, sets.len() as int)
    }
}

/// The names of a finite set in ascending order.
pub open spec fn sorted_listing(s: Set<Seq<char>>) -> Seq<Seq<char>> {
    choose|q: Seq<Seq<char>>| keys_ascending(q) && q.to_set() == s
}

/// Unused-member lints of the first `k` listed sets, given the leaves `escaping` (in
/// ascending order) that the body can raise.
pub open spec fn unused_lints(
    sc: ErrorScope,
    sets: Seq<(Seq<char>, Set<Seq<char>>)>,
    escaping: Seq<Seq<char>>,
    span: Span,
    k: int,
) -> Seq<LintModel>
    decreases k,
{
    if k <= 0 {
        Seq::empty()
    } else {
        let rest = unused_lints(sc, sets, escaping, span, k - 1);
        let members = sets[k - 1].1;
        let e = escaping.to_set();
        if members.subset_of(e) || members.intersect(e) == Set::<Seq<char>>::empty() {
            rest
        } else {
            rest.push(
                LintModel::ErrorSetUnusedMembers {
                    set_name: sets[k - 1].0,
                    unused_members: joined(sorted_listing(members.difference(e)), comma()),
                    suggested_errors: match preferred_name_for(sc, e, e.len(), span) {
                        Some(p) => p,
                        None => joined(escaping, comma()),
                    },
                },
            )
        }
    }
}

/// Every lint of an `errors` clause: a replaceable list, redundant leaves, overlapping
/// sets, and sets with members the body cannot raise.
pub open spec fn clause_lints(
    sc: ErrorScope,
    names: Seq<Seq<char>>,
    expanded: Set<Seq<char>>,
    escaping: Option<Seq<Seq<char>>>,
    span: Span,
) -> Seq<LintModel> {
    let sets = source_sets(sc, names, span);
    replaceable_lints(sc, names, expanded, span) + redundant_lints(source_leaves(sc, names), sets) + overlap_lints(
        sets,
        sets.len() as int,
    ) + match escaping {
        Some(esc) => if esc.len() == 0 {
            Seq::empty()
        } else {
            unused_lints(sc, sets, esc, span, sets.len() as int)
        },
        None => Seq::empty(),
    }
}

/// A leaf an expansion may yield: a known leaf error, or a stdlib family member.
pub open spec fn canonical_leaf(sc: ErrorScope, x: Seq<char>) -> bool {
    is_leaf_name(sc, x) || in_some_family(sc.families, x)
}

/// Expanding an error name yields only canonical leaf names: known leaf errors and
/// stdlib family members.
pub proof fn law_expansion_yields_leaves(sc: ErrorScope, name: Seq<char>, span: Span, stack: Seq<Seq<char>>)
    requires
        sc.sets.dom().finite(),
    ensures
        expansion(sc, name, span, stack) matches Ok(s) ==> forall|x: Seq<char>| #[trigger] s.contains(x) ==> canonical_leaf(
            sc,
            x,
        ),
    decreases unvisited(sc, stack), 0nat,
{
    lemma_family_index(sc.families, name);
    match family_index(sc.families, name) {
        Some(i) => {
            assert forall|x: Seq<char>| #[trigger] member_names(sc.families[i]).to_set().contains(x) implies canonical_leaf(
                sc,
                x,
            ) by {
                assert(member_names(sc.families[i]).contains(x));
            }
        },
        None => {
            if sc.sets.contains_key(name) && !stack.contains(name) {
                stack.lemma_push_to_set_commute(name);
                sc.sets.dom().lemma_set_insert_diff_decreases(stack.to_set(), name);
                lemma_member_expansion_leaves(sc, sc.sets[name], 0, stack.push(name), Set::empty());
            }
        },
    }
}

/// Expanding the members of a set from position `i` keeps every leaf canonical.
proof fn lemma_member_expansion_leaves(
    sc: ErrorScope,
    info: ErrorSetDeclarationInfo,
    i: int,
    stack: Seq<Seq<char>>,
    acc: Set<Seq<char>>,
)
    requires
        sc.sets.dom().finite(),
        0 <= i <= info.members@.len(),
        forall|x: Seq<char>| #[trigger] acc.contains(x) ==> canonical_leaf(sc, x),
    ensures
        member_expansion(sc, info, i, stack, acc) matches Ok(s) ==> forall|x: Seq<char>| #[trigger] s.contains(x)
            ==> canonical_leaf(sc, x),
    decreases unvisited(sc, stack), info.members@.len() - i + 1,
{
    if i < info.members@.len() {
        let m = info.members@[i];
        if is_set_name(sc, m.name@) {
            law_expansion_yields_leaves(sc, m.name@, m.span, stack);
            match expansion(sc, m.name@, m.span, stack) {
                Ok(leaves) => {
                    lemma_member_expansion_leaves(sc, info, i + 1, stack, acc.union(leaves));
                },
                Err(_) => {},
            }
        } else if is_leaf_name(sc, m.name@) {
            lemma_member_expansion_leaves(sc, info, i + 1, stack, acc.insert(m.name@));
        }
    }
}

/// Declared sets not yet on the expansion stack.
pub open spec fn unvisited(sc: ErrorScope, stack: Seq<Seq<char>>) -> nat {
    sc.sets.dom().difference(stack.to_set()).len()
}

/// The leaf errors `name` stands for, expanded with the sets on `stack` already open.
/// A stdlib family stands for its members; a declared set for the union of its members'
/// expansions, failing at the first member that fails; a leaf for itself.
pub open spec fn expansion(sc: ErrorScope, name: Seq<char>, span: Span, stack: Seq<Seq<char>>) -> Result<
    Set<Seq<char>>,
    ExpansionFailure,
>
    decreases unvisited(sc, stack), 0nat,
    when sc.sets.dom().finite()
{
    match family_index(sc.families, name) {
        Some(i) => Ok(member_names(sc.families[i]).to_set()),
        None => if sc.sets.contains_key(name) {
            if stack.contains(name) {
                Err(ExpansionFailure::Cycle { cycle: stack.push(name), span: sc.sets[name].span })
            } else {
                proof {
                    stack.lemma_push_to_set_commute(name);
                    sc.sets.dom().lemma_set_insert_diff_decreases(stack.to_set(), name);
                }
                member_expansion(sc, sc.sets[name], 0, stack.push(name), Set::empty())
            }
        } else if is_leaf_name(sc, name) {
            Ok(set![name])
        } else {
            Err(ExpansionFailure::Undeclared { name, span })
        },
    }
}

/// The members of `info` from position `i` on, expanded and added to `acc`.
pub open spec fn member_expansion(
    sc: ErrorScope,
    info: ErrorSetDeclarationInfo,
    i: int,
    stack: Seq<Seq<char>>,
    acc: Set<Seq<char>>,
) -> Result<Set<Seq<char>>, ExpansionFailure>
    decreases unvisited(sc, stack), info.members@.len() - i + 1,
    when sc.sets.dom().finite() && 0 <= i <= info.members@.len()
{
    if i >= info.members@.len() {
        Ok(acc)
    } else {
        let m = info.members@[i];
        if is_set_name(sc, m.name@) {
            match expansion(sc, m.name@, m.span, stack) {
                Ok(leaves) => member_expansion(sc, info, i + 1, stack, acc.union(leaves)),
                Err(f) => Err(f),
            }
        } else if is_leaf_name(sc, m.name@) {
            member_expansion(sc, info, i + 1, stack, acc.insert(m.name@))
        } else if is_visible_type(sc, m.name@) {
            Err(ExpansionFailure::NonErrorSetMember { set_name: info.name@, member_name: m.name@, span: m.span })
        } else {
            Err(ExpansionFailure::UnknownErrorSetMember { set_name: info.name@, member_name: m.name@, span: m.span })
        }
    }
}

/// The scope read when resolving error names against these sets.
pub open spec fn scope_of(
    sets: &ErrorSets,
    families: &[StdlibErrorFamily],
    environment: &TypeEnvironment,
    symbols: &NameMap<SymbolInfo>,
) -> ErrorScope {
    ErrorScope { families: families@, types: environment.types(), symbols: symbols@, sets: sets.sets() }
}

/// Position of the first member whose name repeats an earlier member's name.
pub open spec fn first_repeat(members: Seq<ErrorSetMember>) -> Option<int> {
    if exists|j: int| 0 <= j < members.len() && repeats_earlier(members, j) {
        Some(choose|j: int| 0 <= j < members.len() && repeats_earlier(members, j)
            && forall|k: int| 0 <= k < j ==> !repeats_earlier(members, k))
    } else {
        None
    }
}

/// Member `j` repeats the name of an earlier member.
pub open spec fn repeats_earlier(members: Seq<ErrorSetMember>, j: int) -> bool {
    exists|k: int| 0 <= k < j && #[trigger] members[k].name@ == members[j].name@
}

/// The names listed in ascending order, once each.
pub fn sorted_names(set: NameMap<()>) -> (r: Vec<String>)
    requires
        set.wf(),
    ensures
        lists_sorted(r@, set@.dom()),
{
    proof {
        set.lemma_view();
    }
    let ghost entries = set.entries_spec();
    let ghost dom = set@.dom();
    let items = set.into_entries();
    let mut out: Vec<String> = Vec::new();
    let mut i: usize = 0;
    while i < items.len()
        invariant
            i <= items@.len(),
            items@ == entries,
            out@.len() == i,
            forall|j: int| 0 <= j < i ==> #[trigger] out@[j]@ == entries[j].0@,
        decreases items@.len() - i,
    {
        out.push(owned(items[i].0.as_str()));
        i = i + 1;
    }
    proof {
        assert(names_of(out@) =~= entry_keys(entries));
        assert forall|k: Seq<char>| names_of(out@).contains(k) <==> dom.contains(k) by {
            if names_of(out@).contains(k) {
                let j = choose|j: int| 0 <= j < names_of(out@).len() && names_of(out@)[j] == k;
                assert(entries[j].0@ == k);
            }
            if dom.contains(k) {
                let j = choose|j: int| 0 <= j < entries.len() && entries[j].0@ == k;
                assert(names_of(out@)[j] == k);
            }
        }
        assert(names_of(out@).to_set() =~= dom);
    }
    out
}

/// Whether a nominal type name can be propagated as a leaf error.
pub fn type_name_can_be_error_leaf(name: &str) -> (r: bool)
    ensures
        r == can_be_error_leaf(name@),
{
    proof {
        reveal_strlit("Error");
        reveal_strlit("Error.");
        assert("Error"@ =~= error_word());
        assert("Error."@ =~= error_word_dot());
    }
    !str_eq(name, "Error") && (ends_with(name, "Error") || contains(name, "Error."))
}

/// `name` is a member of some stdlib family.
fn is_family_member(families: &[StdlibErrorFamily], name: &str) -> (r: bool)
    ensures
        r == in_some_family(families@, name@),
{
    let mut i: usize = 0;
    while i < families.len()
        invariant
            i <= families@.len(),
            forall|a: int| 0 <= a < i ==> !#[trigger] member_names(families@[a]).contains(name@),
        decreases families@.len() - i,
    {
        let members = &families[i].members;
        let mut j: usize = 0;
        while j < members.len()
            invariant
                i < families@.len(),
                j <= members@.len(),
                *members == families@[i as int].members,
                forall|b: int| 0 <= b < j ==> members@[b]@ != name@,
            decreases members@.len() - j,
        {
            if str_eq(members[j].as_str(), name) {
                proof {
                    assert(member_names(families@[i as int])[j as int] == name@);
                    assert(member_names(families@[i as int]).contains(name@));
                }
                return true;
            }
            j = j + 1;
        }
        proof {
            assert forall|b: int| 0 <= b < member_names(families@[i as int]).len() implies member_names(families@[i as int])[b] != name@ by {
                assert(members@[b]@ != name@);
            }
        }
        i = i + 1;
    }
    false
}

/// Two ascending listings of the same names are the same listing.
pub proof fn lemma_ascending_unique(a: Seq<Seq<char>>, b: Seq<Seq<char>>)
    requires
        keys_ascending(a),
        keys_ascending(b),
        a.to_set() == b.to_set(),
    ensures
        a == b,
    decreases a.len(),
{
    if a.len() == 0 {
        if b.len() > 0 {
            assert(b.to_set().contains(b[0]));
        }
        assert(a =~= b);
    } else {
        assert(a.to_set().contains(a[0]));
        assert(b.to_set().contains(a[0]));
        let j = choose|j: int| 0 <= j < b.len() && b[j] == a[0];
        assert(a.to_set().contains(b[0]));
        let i = choose|i: int| 0 <= i < a.len() && a[i] == b[0];
        if j > 0 {
            assert(seq_less(b[0], b[j]));
            if i > 0 {
                assert(seq_less(a[0], a[i]));
                lemma_seq_less_total(a[0], b[0]);
            } else {
                lemma_seq_less_irreflexive(b[0]);
            }
        }
        assert(a[0] == b[0]);
        let ra = a.drop_first();
        let rb = b.drop_first();
        assert(keys_ascending(ra)) by {
            assert forall|x: int, y: int| 0 <= x < y < ra.len() implies seq_less(#[trigger] ra[x], #[trigger] ra[y]) by {
                assert(ra[x] == a[x + 1] && ra[y] == a[y + 1]);
            }
        }
        assert(keys_ascending(rb)) by {
            assert forall|x: int, y: int| 0 <= x < y < rb.len() implies seq_less(#[trigger] rb[x], #[trigger] rb[y]) by {
                assert(rb[x] == b[x + 1] && rb[y] == b[y + 1]);
            }
        }
        assert forall|k: Seq<char>| ra.to_set().contains(k) <==> rb.to_set().contains(k) by {
            if ra.to_set().contains(k) {
                let x = choose|x: int| 0 <= x < ra.len() && ra[x] == k;
                assert(a[x + 1] == k);
                assert(seq_less(a[0], k));
                lemma_seq_less_irreflexive(k);
                assert(b.to_set().contains(k));
                let y = choose|y: int| 0 <= y < b.len() && b[y] == k;
                assert(y != 0);
                assert(rb[y - 1] == k);
            }
            if rb.to_set().contains(k) {
                let y = choose|y: int| 0 <= y < rb.len() && rb[y] == k;
                assert(b[y + 1] == k);
                assert(seq_less(b[0], k));
                lemma_seq_less_irreflexive(k);
                assert(a.to_set().contains(k));
                let x = choose|x: int| 0 <= x < a.len() && a[x] == k;
                assert(x != 0);
                assert(ra[x - 1] == k);
            }
        }
        assert(ra.to_set() =~= rb.to_set());
        lemma_ascending_unique(ra, rb);
        assert(a =~= seq![a[0]] + ra);
        assert(b =~= seq![b[0]] + rb);
    }
}

/// Family preference is transitive.
pub proof fn lemma_preferred_transitive(a: StdlibErrorFamily, b: StdlibErrorFamily, c: StdlibErrorFamily)
    requires
        family_preferred(a, b),
        family_preferred(b, c),
    ensures
        family_preferred(a, c),
{
    if a.specificity_rank == b.specificity_rank && b.specificity_rank == c.specificity_rank && a.members@.len()
        == b.members@.len() && b.members@.len() == c.members@.len() {
        lemma_seq_less_transitive(a.name@, b.name@, c.name@);
    }
}

/// Of two families, one is preferred, or they compare equal.
pub proof fn lemma_preferred_total(a: StdlibErrorFamily, b: StdlibErrorFamily)
    ensures
        family_preferred(a, b) || family_preferred(b, a) || (a.specificity_rank == b.specificity_rank
            && a.members@.len() == b.members@.len() && a.name@ == b.name@),
        !(family_preferred(a, b) && family_preferred(b, a)),
{
    lemma_seq_less_total(a.name@, b.name@);
}

/// Every name of `a` is one of `b`.
pub open spec fn all_listed_spec(a: Seq<String>, b: Seq<Seq<char>>) -> bool {
    forall|j: int| 0 <= j < a.len() ==> b.contains(#[trigger] a[j]@)
}

/// Whether every name of `a` is one of `b`.
fn all_listed(a: &Vec<String>, b: &Vec<String>) -> (r: bool)
    ensures
        r == all_listed_spec(a@, names_of(b@)),
{
    let mut i: usize = 0;
    while i < a.len()
        invariant
            i <= a@.len(),
            forall|j: int| 0 <= j < i ==> names_of(b@).contains(#[trigger] a@[j]@),
        decreases a@.len() - i,
    {
        if !names_contain(b, a[i].as_str()) {
            return false;
        }
        i = i + 1;
    }
    true
}

/// Position of the first generic binding named `name`.
fn find_binding(bindings: &[(String, CoreType)], name: &str) -> (r: Option<usize>)
    ensures
        r is None <==> first_binding(bindings@, name@) is None,
        r matches Some(k) ==> k < bindings@.len() && first_binding(bindings@, name@) == Some(k as int),
{
    let mut k: usize = 0;
    while k < bindings.len()
        invariant
            k <= bindings@.len(),
            forall|j: int| 0 <= j < k ==> bindings@[j].0@ != name@,
        decreases bindings@.len() - k,
    {
        if str_eq(bindings[k].0.as_str(), name) {
            proof {
                assert(bindings@[k as int].0@ == name@);
                let c = choose|c: int| 0 <= c < bindings@.len() && #[trigger] bindings@[c].0@ == name@ && forall|j: int|
                    0 <= j < c ==> bindings@[j].0@ != name@;
                assert(c == k) by {
                    if c < k {
                        assert(bindings@[c].0@ != name@);
                    }
                    if c > k {
                        assert(bindings@[k as int].0@ != name@);
                    }
                }
            }
            return Some(k);
        }
        k = k + 1;
    }
    None
}

/// The least declared set spelling `leaves` is the suggested name.
proof fn lemma_preferred_is_set(sc: ErrorScope, leaves: Set<Seq<char>>, n: nat, span: Span, key: Seq<char>)
    requires
        n > 1,
        set_spells(sc, key, span, leaves),
        forall|k2: Seq<char>| #[trigger] set_spells(sc, k2, span, leaves) ==> k2 == key || seq_less(key, k2),
    ensures
        preferred_name_for(sc, leaves, n, span) == Some(key),
{
    let c = choose|k: Seq<char>| #[trigger] set_spells(sc, k, span, leaves) && forall|k2: Seq<char>| #[trigger] set_spells(
        sc,
        k2,
        span,
        leaves,
    ) ==> k2 == k || seq_less(k, k2);
    assert(set_spells(sc, c, span, leaves));
    if c != key {
        assert(seq_less(key, c));
        assert(seq_less(c, key));
        lemma_seq_less_total(c, key);
    }
}

/// With no declared set spelling `leaves`, the first most preferred eligible family is
/// the suggested name.
proof fn lemma_preferred_is_family(sc: ErrorScope, leaves: Set<Seq<char>>, n: nat, span: Span, b: int)
    requires
        n > 1,
        forall|k: Seq<char>| !#[trigger] set_spells(sc, k, span, leaves),
        0 <= b < sc.families.len(),
        family_spells(sc.families[b], leaves, n),
        forall|a: int| 0 <= a < sc.families.len() && #[trigger] family_spells(sc.families[a], leaves, n) ==> !family_preferred(
            sc.families[a],
            sc.families[b],
        ),
        forall|a: int| 0 <= a < b && #[trigger] family_spells(sc.families[a], leaves, n) ==> family_preferred(
            sc.families[b],
            sc.families[a],
        ),
    ensures
        preferred_name_for(sc, leaves, n, span) == Some(sc.families[b].name@),
{
    let c = choose|c: int| 0 <= c < sc.families.len() && #[trigger] family_spells(sc.families[c], leaves, n) && (forall|g: int|
        0 <= g < sc.families.len() && family_spells(sc.families[g], leaves, n) ==> !family_preferred(sc.families[g], sc.families[c]))
        && (forall|g: int| 0 <= g < c && family_spells(sc.families[g], leaves, n) ==> family_preferred(sc.families[c], sc.families[g]));
    assert(family_spells(sc.families[b], leaves, n));
    assert(c == b) by {
        if c < b {
            assert(family_preferred(sc.families[b], sc.families[c]));
        }
        if c > b {
            assert(family_preferred(sc.families[c], sc.families[b]));
        }
    }
}

/// `v` lists the sets `ss`: the same names, each with its leaves in ascending order.
pub open spec fn sets_listed(v: Seq<(String, Vec<String>)>, ss: Seq<(Seq<char>, Set<Seq<char>>)>) -> bool {
    &&& v.len() == ss.len()
    &&& forall|i: int| #![trigger v[i]] 0 <= i < v.len() ==> v[i].0@ == ss[i].0 && lists_sorted(v[i].1@, ss[i].1)
}

/// `first_cover` finds the least covering set.
pub proof fn lemma_first_cover(sets: Seq<(Seq<char>, Set<Seq<char>>)>, leaf: Seq<char>)
    ensures
        first_cover(sets, leaf) is None <==> forall|j: int| 0 <= j < sets.len() ==> !(#[trigger] sets[j].1.contains(leaf)),
        first_cover(sets, leaf) matches Some(i) ==> 0 <= i < sets.len() && sets[i].1.contains(leaf) && forall|j: int|
            0 <= j < i ==> !(#[trigger] sets[j].1.contains(leaf)),
    decreases sets.len(),
{
    if sets.len() > 0 {
        let t = sets.drop_last();
        lemma_first_cover(t, leaf);
        assert forall|j: int| 0 <= j < t.len() implies t[j] == sets[j] by {}
        let last = sets.len() - 1;
        assert(sets.last() == sets[last]);
        match first_cover(t, leaf) {
            Some(i) => {
                assert(first_cover(sets, leaf) == Some(i));
                assert(t[i] == sets[i]);
                assert forall|j: int| 0 <= j < i implies !(#[trigger] sets[j].1.contains(leaf)) by {
                    assert(t[j] == sets[j]);
                }
            },
            None => {
                if sets[last].1.contains(leaf) {
                    assert(first_cover(sets, leaf) == Some(last));
                    assert forall|j: int| 0 <= j < last implies !(#[trigger] sets[j].1.contains(leaf)) by {
                        assert(t[j] == sets[j]);
                    }
                } else {
                    assert(first_cover(sets, leaf) is None);
                    assert forall|j: int| 0 <= j < sets.len() implies !(#[trigger] sets[j].1.contains(leaf)) by {
                        if j < last {
                            assert(t[j] == sets[j]);
                        }
                    }
                }
            },
        }
    }
}

/// Every name of `a` is one of `q` exactly when the names of `a` form a subset.
pub proof fn lemma_all_listed_subset(a: Seq<String>, q: Seq<Seq<char>>)
    ensures
        all_listed_spec(a, q) <==> names_of(a).to_set().subset_of(q.to_set()),
{
    if all_listed_spec(a, q) {
        assert forall|x: Seq<char>| names_of(a).to_set().contains(x) implies q.to_set().contains(x) by {
            let j = choose|j: int| 0 <= j < names_of(a).len() && names_of(a)[j] == x;
            assert(q.contains(a[j]@));
        }
    }
    if names_of(a).to_set().subset_of(q.to_set()) {
        assert forall|j: int| 0 <= j < a.len() implies q.contains(#[trigger] a[j]@) by {
            assert(names_of(a)[j] == a[j]@);
            assert(names_of(a).to_set().contains(a[j]@));
        }
    }
}

/// An ascending listing has exactly as many entries as the set it lists.
pub proof fn lemma_listing_len(v: Seq<String>, s: Set<Seq<char>>)
    requires
        lists_sorted(v, s),
    ensures
        v.len() == s.len(),
{
    let q = names_of(v);
    assert forall|i: int, j: int| 0 <= i < q.len() && 0 <= j < q.len() && i != j implies q[i] != q[j] by {
        lemma_ascending_distinct(q, i, j);
    }
    assert(q.no_duplicates());
    q.unique_seq_to_set();
}

/// The names of `v`, each at its first occurrence.
fn first_occurrence_list(v: &Vec<String>) -> (r: Vec<String>)
    ensures
        names_of(r@) == first_occurrences(names_of(v@)),
{
    let mut out: Vec<String> = Vec::new();
    let mut i: usize = 0;
    while i < v.len()
        invariant
            i <= v@.len(),
            names_of(out@) == first_occurrences(names_of(v@).take(i as int)),
        decreases v@.len() - i,
    {
        proof {
            let q = names_of(v@);
            assert(q.take(i + 1).drop_last() =~= q.take(i as int));
            assert(q.take(i + 1).last() == v@[i as int]@);
        }
        if !names_contain(&out, v[i].as_str()) {
            let ghost before = out@;
            out.push(owned(v[i].as_str()));
            proof {
                assert(out@.drop_last() =~= before);
                assert(names_of(out@) =~= names_of(before).push(v@[i as int]@));
            }
        }
        i = i + 1;
    }
    proof {
        assert(names_of(v@).take(v@.len() as int) =~= names_of(v@));
    }
    out
}

/// The names of `a` (ascending) that are not among `b`, still ascending.
fn names_not_in(a: &Vec<String>, b: &Vec<String>) -> (r: Vec<String>)
    requires
        keys_ascending(names_of(a@)),
    ensures
        lists_sorted(r@, names_of(a@).to_set().difference(names_of(b@).to_set())),
{
    let ghost qa = names_of(a@);
    let ghost qb = names_of(b@).to_set();
    let mut out: Vec<String> = Vec::new();
    let mut i: usize = 0;
    while i < a.len()
        invariant
            i <= a@.len(),
            qa == names_of(a@),
            qb == names_of(b@).to_set(),
            keys_ascending(qa),
            keys_ascending(names_of(out@)),
            forall|j: int| 0 <= j < out@.len() ==> exists|x: int| 0 <= x < i && #[trigger] names_of(out@)[j] == qa[x],
            names_of(out@).to_set() == qa.take(i as int).to_set().difference(qb),
        decreases a@.len() - i,
    {
        proof {
            assert(qa.take(i + 1) =~= qa.take(i as int).push(qa[i as int]));
            qa.take(i as int).lemma_push_to_set_commute(qa[i as int]);
        }
        if !names_contain(b, a[i].as_str()) {
            let ghost before = out@;
            out.push(owned(a[i].as_str()));
            proof {
                assert(out@.drop_last() =~= before);
                assert(names_of(out@) =~= names_of(before).push(qa[i as int]));
                assert forall|x: int, y: int| 0 <= x < y < names_of(out@).len() implies seq_less(
                    #[trigger] names_of(out@)[x],
                    #[trigger] names_of(out@)[y],
                ) by {
                    if y == names_of(out@).len() - 1 {
                        let w = choose|w: int| 0 <= w < i && #[trigger] names_of(before)[x] == qa[w];
                        assert(names_of(out@)[x] == names_of(before)[x]);
                        assert(seq_less(qa[w], qa[i as int]));
                    } else {
                        assert(names_of(out@)[x] == names_of(before)[x]);
                        assert(names_of(out@)[y] == names_of(before)[y]);
                    }
                }
                assert forall|j: int| 0 <= j < out@.len() implies exists|x: int| 0 <= x < i + 1 && #[trigger] names_of(out@)[j]
                    == qa[x] by {
                    if j < before.len() {
                        assert(names_of(out@)[j] == names_of(before)[j]);
                        let w = choose|w: int| 0 <= w < i && #[trigger] names_of(before)[j] == qa[w];
                    } else {
                        assert(names_of(out@)[j] == qa[i as int]);
                    }
                }
                names_of(before).lemma_push_to_set_commute(qa[i as int]);
                assert(names_of(out@).to_set() =~= qa.take(i + 1).to_set().difference(qb));
            }
        } else {
            proof {
                assert(names_of(b@)[0] == names_of(b@)[0]);
                assert(qb.contains(qa[i as int]));
                assert(names_of(out@).to_set() =~= qa.take(i + 1).to_set().difference(qb));
                assert forall|j: int| 0 <= j < out@.len() implies exists|x: int| 0 <= x < i + 1 && #[trigger] names_of(out@)[j]
                    == qa[x] by {
                    let w = choose|w: int| 0 <= w < i && #[trigger] names_of(out@)[j] == qa[w];
                }
            }
        }
        i = i + 1;
    }
    proof {
        assert(qa.take(a@.len() as int) =~= qa);
    }
    out
}

/// Whether no name of `a` is one of `b`.
fn none_listed(a: &Vec<String>, b: &Vec<String>) -> (r: bool)
    ensures
        r == (names_of(a@).to_set().intersect(names_of(b@).to_set()) == Set::<Seq<char>>::empty()),
{
    let mut i: usize = 0;
    while i < a.len()
        invariant
            i <= a@.len(),
            forall|j: int| 0 <= j < i ==> !names_of(b@).contains(#[trigger] a@[j]@),
        decreases a@.len() - i,
    {
        if names_contain(b, a[i].as_str()) {
            proof {
                assert(names_of(a@)[i as int] == a@[i as int]@);
                assert(names_of(a@).to_set().intersect(names_of(b@).to_set()).contains(a@[i as int]@));
            }
            return false;
        }
        i = i + 1;
    }
    proof {
        assert forall|x: Seq<char>| !names_of(a@).to_set().intersect(names_of(b@).to_set()).contains(x) by {
            if names_of(a@).to_set().contains(x) {
                let j = choose|j: int| 0 <= j < names_of(a@).len() && names_of(a@)[j] == x;
                assert(a@[j]@ == x);
            }
        }
        assert(names_of(a@).to_set().intersect(names_of(b@).to_set()) =~= Set::<Seq<char>>::empty());
    }
    true
}

/// Position of the first listed set whose leaves include `leaf`.
fn find_cover(sets: &Vec<(String, Vec<String>)>, leaf: &str) -> (r: Option<usize>)
    ensures
        r is None <==> forall|j: int| 0 <= j < sets@.len() ==> !names_of(sets@[j].1@).contains(leaf@),
        r matches Some(i) ==> i < sets@.len() && names_of(sets@[i as int].1@).contains(leaf@) && forall|j: int|
            0 <= j < i ==> !names_of(sets@[j].1@).contains(leaf@),
{
    let mut j: usize = 0;
    while j < sets.len()
        invariant
            j <= sets@.len(),
            forall|k: int| 0 <= k < j ==> !names_of(sets@[k].1@).contains(leaf@),
        decreases sets@.len() - j,
    {
        if names_contain(&sets[j].1, leaf) {
            return Some(j);
        }
        j = j + 1;
    }
    None
}

/// Lint each listed leaf that a listed set covers, naming the first such set.
fn push_redundant_lints(
    warnings: &mut Vec<Warning>,
    leaves: &Vec<String>,
    sets: &Vec<(String, Vec<String>)>,
    Ghost(ss): Ghost<Seq<(Seq<char>, Set<Seq<char>>)>>,
    span: Span,
)
    requires
        sets_listed(sets@, ss),
    ensures
        appended_lints(old(warnings)@, final(warnings)@, redundant_lints(names_of(leaves@), ss), span),
{
    let ghost start = warnings@;
    let ghost q = names_of(leaves@);
    proof {
        assert(start.subrange(0, start.len() as int) =~= start);
        assert(q.take(0) =~= Seq::<Seq<char>>::empty());
    }
    let mut i: usize = 0;
    while i < leaves.len()
        invariant
            i <= leaves@.len(),
            q == names_of(leaves@),
            sets_listed(sets@, ss),
            appended_lints(start, warnings@, redundant_lints(q.take(i as int), ss), span),
        decreases leaves@.len() - i,
    {
        let leaf = leaves[i].as_str();
        proof {
            assert(q.take(i + 1).drop_last() =~= q.take(i as int));
            assert(q.take(i + 1).last() == leaf@);
            lemma_first_cover(ss, leaf@);
        }
        let ghost mid = warnings@;
        match find_cover(sets, leaf) {
            Some(j) => {
                proof {
                    assert(ss[j as int].1 == names_of(sets@[j as int].1@).to_set());
                    assert(ss[j as int].1.contains(leaf@));
                    assert forall|k: int| 0 <= k < j implies !(#[trigger] ss[k].1.contains(leaf@)) by {
                        assert(ss[k].1 == names_of(sets@[k].1@).to_set());
                        assert(!names_of(sets@[k].1@).contains(leaf@));
                    }
                    let c = first_cover(ss, leaf@);
                    assert(c == Some(j as int)) by {
                        let ci = c->0;
                        if ci < j {
                            assert(!ss[ci].1.contains(leaf@));
                        }
                        if ci > j {
                            assert(!ss[j as int].1.contains(leaf@));
                        }
                    }
                }
                warnings.push(Warning::ErrorSetRedundantMember {
                    redundant_member: owned(leaf),
                    covering_set: owned(sets[j].0.as_str()),
                    span: TypeError::span_from_span(span),
                    suppression_annotation: None,
                });
                proof {
                    let step = seq![
                        LintModel::ErrorSetRedundantMember { redundant_member: leaf@, covering_set: ss[j as int].0 },
                    ];
                    assert(warnings@.subrange(0, mid.len() as int) =~= mid);
                    assert(is_lint(warnings@[mid.len() as int], step[0], span));
                    assert(appended_lints(mid, warnings@, step, span));
                    lemma_appended_chain(start, mid, warnings@, redundant_lints(q.take(i as int), ss), step, span);
                    assert(redundant_lints(q.take(i + 1), ss) =~= redundant_lints(q.take(i as int), ss) + step);
                }
            },
            None => {
                proof {
                    assert forall|k: int| 0 <= k < ss.len() implies !(#[trigger] ss[k].1.contains(leaf@)) by {
                        assert(ss[k].1 == names_of(sets@[k].1@).to_set());
                        assert(!names_of(sets@[k].1@).contains(leaf@));
                    }
                }
            },
        }
        i = i + 1;
    }
    proof {
        assert(q.take(leaves@.len() as int) =~= q);
    }
}

/// Lint each pair of listed sets of which one includes the other.
fn push_overlap_lints(
    warnings: &mut Vec<Warning>,
    sets: &Vec<(String, Vec<String>)>,
    Ghost(ss): Ghost<Seq<(Seq<char>, Set<Seq<char>>)>>,
    span: Span,
)
    requires
        sets_listed(sets@, ss),
    ensures
        appended_lints(old(warnings)@, final(warnings)@, overlap_lints(ss, ss.len() as int), span),
{
    let ghost start = warnings@;
    let n = sets.len();
    let mut i: usize = 0;
    proof {
        assert(start.subrange(0, start.len() as int) =~= start);
    }
    while i < n
        invariant
            n == sets@.len(),
            i <= n,
            sets_listed(sets@, ss),
            appended_lints(start, warnings@, overlap_lints(ss, i as int), span),
        decreases n - i,
    {
        let ghost row_start = warnings@;
        let mut j: usize = i + 1;
        proof {
            assert(row_start.subrange(0, row_start.len() as int) =~= row_start);
        }
        while j < n
            invariant
                n == sets@.len(),
                i < n,
                i + 1 <= j <= n,
                sets_listed(sets@, ss),
                appended_lints(row_start, warnings@, pairs_with(ss, i as int, j as int), span),
            decreases n - j,
        {
            let ghost mid = warnings@;
            let left = &sets[i];
            let right = &sets[j];
            proof {
                lemma_all_listed_subset(left.1@, names_of(right.1@));
                lemma_all_listed_subset(right.1@, names_of(left.1@));
                assert(ss[i as int].1 == names_of(left.1@).to_set());
                assert(ss[j as int].1 == names_of(right.1@).to_set());
            }
            if all_listed(&left.1, &right.1) {
                warnings.push(Warning::ErrorSetOverlap {
                    narrower_set: owned(left.0.as_str()),
                    broader_set: owned(right.0.as_str()),
                    span: TypeError::span_from_span(span),
                    suppression_annotation: None,
                });
                proof {
                    let step = pair_lint(ss, i as int, j as int);
                    assert(warnings@.subrange(0, mid.len() as int) =~= mid);
                    assert(is_lint(warnings@[mid.len() as int], step[0], span));
                    assert(appended_lints(mid, warnings@, step, span));
                    lemma_appended_chain(row_start, mid, warnings@, pairs_with(ss, i as int, j as int), step, span);
                }
            } else if all_listed(&right.1, &left.1) {
                warnings.push(Warning::ErrorSetOverlap {
                    narrower_set: owned(right.0.as_str()),
                    broader_set: owned(left.0.as_str()),
                    span: TypeError::span_from_span(span),
                    suppression_annotation: None,
                });
                proof {
                    let step = pair_lint(ss, i as int, j as int);
                    assert(warnings@.subrange(0, mid.len() as int) =~= mid);
                    assert(is_lint(warnings@[mid.len() as int], step[0], span));
                    assert(appended_lints(mid, warnings@, step, span));
                    lemma_appended_chain(row_start, mid, warnings@, pairs_with(ss, i as int, j as int), step, span);
                }
            } else {
                proof {
                    assert(pair_lint(ss, i as int, j as int) =~= Seq::<LintModel>::empty());
                    assert(pairs_with(ss, i as int, j + 1) =~= pairs_with(ss, i as int, j as int));
                }
            }
            proof {
                assert(pairs_with(ss, i as int, j + 1) == pairs_with(ss, i as int, j as int) + pair_lint(ss, i as int, j as int));
            }
            j = j + 1;
        }
        proof {
            lemma_appended_chain(start, row_start, warnings@, overlap_lints(ss, i as int), pairs_with(ss, i as int, n as int), span);
            assert(overlap_lints(ss, i + 1) == overlap_lints(ss, i as int) + pairs_with(ss, i as int, ss.len() as int));
        }
        i = i + 1;
    }
}

/// A copy of a list of names.
fn copy_names(v: &Vec<String>) -> (r: Vec<String>)
    ensures
        names_of(r@) == names_of(v@),
{
    let mut out: Vec<String> = Vec::new();
    let mut i: usize = 0;
    while i < v.len()
        invariant
            i <= v@.len(),
            out@.len() == i,
            forall|j: int| 0 <= j < i ==> #[trigger] out@[j]@ == v@[j]@,
        decreases v@.len() - i,
    {
        out.push(owned(v[i].as_str()));
        i = i + 1;
    }
    assert(names_of(out@) =~= names_of(v@));
    out
}

/// Add every name of `v` to `set`.
fn insert_names(set: &mut NameMap<()>, v: &Vec<String>)
    requires
        old(set).wf(),
    ensures
        final(set).wf(),
        final(set)@.dom() == old(set)@.dom().union(names_of(v@).to_set()),
{
    let ghost base = set@.dom();
    let mut i: usize = 0;
    while i < v.len()
        invariant
            i <= v@.len(),
            set.wf(),
            set@.dom() == base.union(names_of(v@).take(i as int).to_set()),
        decreases v@.len() - i,
    {
        set.insert(owned(v[i].as_str()), ());
        proof {
            let q = names_of(v@);
            assert(q.take(i + 1) =~= q.take(i as int).push(v@[i as int]@));
            q.take(i as int).lemma_push_to_set_commute(v@[i as int]@);
            assert(set@.dom() =~= base.union(q.take(i + 1).to_set()));
        }
        i = i + 1;
    }
    assert(names_of(v@).take(v@.len() as int) =~= names_of(v@));
}

/// The declared named error sets, and the error leaves that can escape the function
/// bodies being checked.
#[derive(Debug)]
pub struct ErrorSets {
    sets: NameMap<ErrorSetDeclarationInfo>,
    escaping_error_stack: Vec<NameMap<()>>,
}

impl ErrorSets {
    /// Declared sets by name.
    pub closed spec fn sets(&self) -> Map<Seq<char>, ErrorSetDeclarationInfo> {
        self.sets@
    }

    /// Escaping-leaf collections, innermost last.
    pub closed spec fn escaping(&self) -> Seq<Set<Seq<char>>> {
        self.escaping_error_stack@.map_values(|m: NameMap<()>| m@.dom())
    }

    /// Well-formedness: ordered tables.
    pub closed spec fn wf(&self) -> bool {
        &&& self.sets.wf()
        &&& forall|k: Seq<char>| #[trigger] self.sets@.contains_key(k) ==> self.sets@[k].name@ == k
        &&& forall|i: int| 0 <= i < self.escaping_error_stack@.len() ==> #[trigger] self.escaping_error_stack@[i].wf()
    }

    /// The declared set names are finitely many.
    pub proof fn lemma_finite(&self)
        ensures
            self.sets().dom().finite(),
    {
        self.sets.lemma_finite();
    }

    /// No sets and no open collection.
    pub fn new() -> (r: Self)
        ensures
            r.wf(),
            r.sets() == Map::<Seq<char>, ErrorSetDeclarationInfo>::empty(),
            r.escaping() == Seq::<Set<Seq<char>>>::empty(),
    {
        let r = ErrorSets { sets: NameMap::new(), escaping_error_stack: Vec::new() };
        assert(r.escaping() =~= Seq::<Set<Seq<char>>>::empty());
        r
    }

    /// Return true when `name` resolves as a named error set.
    pub fn is_error_set_name(&self, families: &[StdlibErrorFamily], name: &str) -> (r: bool)
        requires
            self.wf(),
        ensures
            r == (self.sets().contains_key(name@) || family_index(families@, name@) is Some),
    {
        self.sets.contains_key(name) || stdlib_error_family(families, name).is_some()
    }

    /// Return true when `name` is a known leaf error rather than a named set.
    pub fn is_error_leaf_name(
        &self,
        families: &[StdlibErrorFamily],
        environment: &TypeEnvironment,
        symbols: &NameMap<SymbolInfo>,
        name: &str,
        span: Span,
    ) -> (r: bool)
        requires
            self.wf(),
            environment.wf(),
            symbols.wf(),
        ensures
            r == is_leaf_name(scope_of(self, families, environment, symbols), name@),
    {
        proof {
            reveal_strlit("Error");
            assert("Error"@ =~= error_word());
        }
        if str_eq(name, "Error") || self.is_error_set_name(families, name) {
            return false;
        }
        if is_family_member(families, name) {
            return true;
        }
        if environment.lookup_type(name, span).is_ok() {
            return type_name_can_be_error_leaf(name);
        }
        match symbols.get(name) {
            Some(symbol) => symbol.symbol_type == SymbolType::Type && type_name_can_be_error_leaf(name),
            None => false,
        }
    }

    /// Expand one source-level error name into leaf names: a stdlib family into its
    /// members in family order, a declared set into its leaves in ascending order, a
    /// leaf into itself. `stack` holds the declared sets being expanded; it is as it
    /// was when expansion succeeds.
    pub fn expand_error_name_to_leaf_names(
        &self,
        families: &[StdlibErrorFamily],
        environment: &TypeEnvironment,
        symbols: &NameMap<SymbolInfo>,
        name: &str,
        span: Span,
        stack: &mut Vec<String>,
    ) -> (r: Result<Vec<String>, TypeError>)
        requires
            self.wf(),
            environment.wf(),
            symbols.wf(),
        ensures
            ({
                let e = expansion(scope_of(self, families, environment, symbols), name@, span, names_of(old(stack)@));
                match r {
                    Ok(v) => e matches Ok(s) && listed_expansion(
                        scope_of(self, families, environment, symbols),
                        name@,
                        v@,
                        s,
                    ),
                    Err(err) => e matches Err(f) && reports(err, f),
                }
            }),
            r is Ok ==> final(stack)@ == old(stack)@,
        decreases unvisited(scope_of(self, families, environment, symbols), names_of(old(stack)@)),
    {
        let ghost sc = scope_of(self, families, environment, symbols);
        let ghost start = names_of(stack@);
        proof {
            self.lemma_finite();
            lemma_family_index(families@, name@);
        }
        match stdlib_error_family(families, name) {
            Some(family) => {
                let mut out: Vec<String> = Vec::new();
                let mut j: usize = 0;
                while j < family.members.len()
                    invariant
                        j <= family.members@.len(),
                        out@.len() == j,
                        forall|k: int| 0 <= k < j ==> #[trigger] out@[k]@ == family.members@[k]@,
                    decreases family.members@.len() - j,
                {
                    out.push(owned(family.members[j].as_str()));
                    j = j + 1;
                }
                assert(names_of(out@) =~= member_names(*family));
                return Ok(out);
            },
            None => {},
        }
        match self.sets.get(name) {
            Some(info) => {
                if names_contain(stack, name) {
                    let mut cycle = copy_names(stack);
                    cycle.push(owned(name));
                    proof {
                        reveal_strlit(" -> ");
                        assert(" -> "@ =~= seq![' ', '-', '>', ' ']);
                        assert(names_of(cycle@) =~= start.push(name@));
                    }
                    return Err(TypeError::ErrorSetCycle {
                        cycle: join_names_slice(cycle.as_slice(), " -> "),
                        span: TypeError::span_from_span(info.span),
                    });
                }
                stack.push(owned(name));
                let ghost pushed = names_of(stack@);
                let ghost pushed_stack = stack@;
                proof {
                    assert(pushed =~= start.push(name@));
                    start.lemma_push_to_set_commute(name@);
                    sc.sets.dom().lemma_set_insert_diff_decreases(start.to_set(), name@);
                    assert(expansion(sc, name@, span, start) == member_expansion(sc, *info, 0, pushed, Set::empty()));
                }
                let mut leaves: NameMap<()> = NameMap::new();
                let mut i: usize = 0;
                while i < info.members.len()
                    invariant
                        self.wf(),
                        environment.wf(),
                        symbols.wf(),
                        sc == scope_of(self, families, environment, symbols),
                        sc.sets.dom().finite(),
                        sc.sets.contains_key(name@),
                        *info == sc.sets[name@],
                        i <= info.members@.len(),
                        leaves.wf(),
                        names_of(stack@) == pushed,
                        stack@ == pushed_stack,
                        pushed_stack == old(stack)@.push(pushed_stack.last()),
                        start == names_of(old(stack)@),
                        unvisited(sc, pushed) < unvisited(sc, start),
                        expansion(sc, name@, span, start) == member_expansion(sc, *info, 0, pushed, Set::empty()),
                        member_expansion(sc, *info, 0, pushed, Set::empty()) == member_expansion(
                            sc,
                            *info,
                            i as int,
                            pushed,
                            leaves@.dom(),
                        ),
                    decreases info.members@.len() - i,
                {
                    let member = &info.members[i];
                    if self.is_error_set_name(families, member.name.as_str()) {
                        let sub = self.expand_error_name_to_leaf_names(
                            families,
                            environment,
                            symbols,
                            member.name.as_str(),
                            member.span,
                            stack,
                        );
                        match sub {
                            Ok(found) => {
                                proof {
                                    lemma_family_index(families@, member.name@);
                                }
                                insert_names(&mut leaves, &found);
                            },
                            Err(e) => {
                                return Err(e);
                            },
                        }
                    } else if self.is_error_leaf_name(families, environment, symbols, member.name.as_str(), member.span) {
                        leaves.insert(owned(member.name.as_str()), ());
                    } else if Self::is_visible_type_name(environment, symbols, member.name.as_str(), span) {
                        return Err(TypeError::NonErrorSetMember {
                            set_name: owned(info.name.as_str()),
                            member_name: owned(member.name.as_str()),
                            span: TypeError::span_from_span(member.span),
                        });
                    } else {
                        return Err(TypeError::UnknownErrorSetMember {
                            set_name: owned(info.name.as_str()),
                            member_name: owned(member.name.as_str()),
                            span: TypeError::span_from_span(member.span),
                        });
                    }
                    i = i + 1;
                }
                stack.pop();
                proof {
                    assert(stack@ =~= old(stack)@);
                }
                return Ok(sorted_names(leaves));
            },
            None => {},
        }
        if self.is_error_leaf_name(families, environment, symbols, name, span) {
            let mut out: Vec<String> = Vec::new();
            out.push(owned(name));
            proof {
                assert(names_of(out@) =~= seq![name@]);
                assert forall|x: Seq<char>| seq![name@].to_set().contains(x) <==> x == name@ by {
                    if x == name@ {
                        assert(seq![name@][0] == x);
                    }
                }
                assert(seq![name@].to_set() =~= set![name@]);
                assert(keys_ascending(names_of(out@)));
            }
            return Ok(out);
        }
        Err(TypeError::UndeclaredErrorType { name: owned(name), span: TypeError::span_from_span(span) })
    }

    /// The leaf members of a visible named set; `None` for any other name, or when
    /// the set fails to expand.
    pub fn expanded_error_set_members(
        &self,
        families: &[StdlibErrorFamily],
        environment: &TypeEnvironment,
        symbols: &NameMap<SymbolInfo>,
        name: &str,
    ) -> (r: Option<Vec<String>>)
        requires
            self.wf(),
            environment.wf(),
            symbols.wf(),
        ensures
            ({
                let sc = scope_of(self, families, environment, symbols);
                let e = expansion(sc, name@, file_start_span(), Seq::empty());
                &&& !is_set_name(sc, name@) ==> r is None
                &&& is_set_name(sc, name@) ==> (r is Some <==> e is Ok)
                &&& r matches Some(v) ==> (e matches Ok(s) && listed_expansion(sc, name@, v@, s))
            }),
    {
        if !self.is_error_set_name(families, name) {
            return None;
        }
        let mut stack: Vec<String> = Vec::new();
        proof {
            assert(names_of(stack@) =~= Seq::<Seq<char>>::empty());
        }
        match self.expand_error_name_to_leaf_names(
            families,
            environment,
            symbols,
            name,
            Span::single(Position::start()),
            &mut stack,
        ) {
            Ok(v) => Some(v),
            Err(_) => None,
        }
    }

    /// Resolve error names into the leaf error types they stand for, in ascending name
    /// order and once each, or report the first name that fails to expand.
    pub fn resolve_error_types(
        &self,
        families: &[StdlibErrorFamily],
        environment: &TypeEnvironment,
        symbols: &NameMap<SymbolInfo>,
        error_names: &[String],
        span: Span,
    ) -> (r: Result<Vec<CoreType>, TypeError>)
        requires
            self.wf(),
            environment.wf(),
            symbols.wf(),
        ensures
            resolved(scope_of(self, families, environment, symbols), names_of(error_names@), span, r),
    {
        let ghost sc = scope_of(self, families, environment, symbols);
        let ghost names = names_of(error_names@);
        let mut all: NameMap<()> = NameMap::new();
        let mut i: usize = 0;
        while i < error_names.len()
            invariant
                self.wf(),
                environment.wf(),
                symbols.wf(),
                sc == scope_of(self, families, environment, symbols),
                names == names_of(error_names@),
                i <= error_names@.len(),
                all.wf(),
                resolution(sc, names, span, 0, Set::empty()) == resolution(sc, names, span, i as int, all@.dom()),
            decreases error_names@.len() - i,
        {
            let mut stack: Vec<String> = Vec::new();
            proof {
                assert(names_of(stack@) =~= Seq::<Seq<char>>::empty());
                assert(names[i as int] == error_names@[i as int]@);
            }
            match self.expand_error_name_to_leaf_names(
                families,
                environment,
                symbols,
                error_names[i].as_str(),
                span,
                &mut stack,
            ) {
                Ok(found) => {
                    let ghost before = all@.dom();
                    proof {
                        self.lemma_finite();
                        lemma_family_index(families@, names[i as int]);
                        let leaves = expansion(sc, names[i as int], span, Seq::empty())->Ok_0;
                        assert(listed_expansion(sc, names[i as int], found@, leaves));
                        match family_index(sc.families, names[i as int]) {
                            Some(k) => {
                                assert(leaves == member_names(sc.families[k]).to_set());
                            },
                            None => {},
                        }
                        assert(names_of(found@).to_set() == leaves);
                    }
                    insert_names(&mut all, &found);
                    proof {
                        let leaves = expansion(sc, names[i as int], span, Seq::empty())->Ok_0;
                        assert(all@.dom() == before.union(leaves));
                        assert(resolution(sc, names, span, i as int, before) == resolution(
                            sc,
                            names,
                            span,
                            i + 1,
                            before.union(leaves),
                        ));
                    }
                },
                Err(e) => {
                    return Err(e);
                },
            }
            i = i + 1;
        }
        let listed = sorted_names(all);
        let mut out: Vec<CoreType> = Vec::new();
        let mut j: usize = 0;
        while j < listed.len()
            invariant
                j <= listed@.len(),
                models_of(out@) == names_of(listed@).take(j as int).map_values(|n: Seq<char>| error_leaf_model(n)),
            decreases listed@.len() - j,
        {
            let t = stdlib_error_core_type(listed[j].as_str());
            proof {
                let q = names_of(listed@);
                assert(q.take(j + 1) =~= q.take(j as int).push(listed@[j as int]@));
                assert(q.take(j + 1).map_values(|n: Seq<char>| error_leaf_model(n)) =~= q.take(j as int).map_values(
                    |n: Seq<char>| error_leaf_model(n),
                ).push(error_leaf_model(listed@[j as int]@)));
            }
            let ghost before = out@;
            out.push(t);
            proof {
                assert(out@.drop_last() =~= before);
            }
            j = j + 1;
        }
        proof {
            assert(names_of(listed@).take(listed@.len() as int) =~= names_of(listed@));
        }
        Ok(out)
    }

    /// Each declared set is stored under its own name.
    pub proof fn lemma_named_by_key(&self)
        requires
            self.wf(),
        ensures
            forall|k: Seq<char>| #[trigger] self.sets().contains_key(k) ==> self.sets()[k].name@ == k,
    {
    }

    /// Register a named error-set declaration, its name as a nominal type, unless it has
    /// no members or repeats one; the first repeat is reported.
    pub fn register_error_set_declaration_raw(
        &mut self,
        environment: &mut TypeEnvironment,
        name: String,
        members: Vec<ErrorSetMember>,
        visibility: Visibility,
        span: Span,
    ) -> (r: Option<TypeError>)
        requires
            old(self).wf(),
            old(environment).wf(),
        ensures
            final(self).wf(),
            final(environment).wf(),
            final(self).escaping() == old(self).escaping(),
            members@.len() == 0 ==> (r matches Some(TypeError::EmptyErrorSet { set_name, span: s }) && set_name@ == name@
                && s == diagnostic_span_of(span)),
            members@.len() > 0 && first_repeat(members@) is Some ==> ({
                let j = first_repeat(members@)->0;
                r matches Some(TypeError::DuplicateErrorSetMember { set_name, member_name, span: s })
                    && set_name@ == name@ && member_name@ == members@[j].name@ && s == diagnostic_span_of(members@[j].span)
            }),
            r is Some ==> final(self).sets() == old(self).sets() && final(environment).types() == old(environment).types(),
            members@.len() > 0 && first_repeat(members@) is None ==> ({
                &&& r is None
                &&& final(self).sets() == old(self).sets().insert(
                    name@,
                    ErrorSetDeclarationInfo { name, members, visibility, span },
                )
                &&& final(environment).types() == old(environment).types().insert(name@, error_leaf_model(name@))
            }),
    {
        if members.len() == 0 {
            return Some(TypeError::EmptyErrorSet { set_name: name, span: TypeError::span_from_span(span) });
        }
        let mut seen: NameMap<()> = NameMap::new();
        let mut j: usize = 0;
        while j < members.len()
            invariant
                self.wf(),
                environment.wf(),
                self.sets() == old(self).sets(),
                self.escaping() == old(self).escaping(),
                environment.types() == old(environment).types(),
                j <= members@.len(),
                seen.wf(),
                forall|k: Seq<char>| #[trigger] seen@.contains_key(k) <==> exists|a: int| 0 <= a < j && members@[a].name@ == k,
                forall|b: int| 0 <= b < j ==> !repeats_earlier(members@, b),
            decreases members@.len() - j,
        {
            if seen.contains_key(members[j].name.as_str()) {
                proof {
                    let k = members@[j as int].name@;
                    let a = choose|a: int| 0 <= a < j && members@[a].name@ == k;
                    assert(repeats_earlier(members@, j as int));
                    let c = choose|c: int| 0 <= c < members@.len() && repeats_earlier(members@, c)
                        && forall|d: int| 0 <= d < c ==> !repeats_earlier(members@, d);
                    assert(c == j) by {
                        if c < j {
                            assert(!repeats_earlier(members@, c));
                        }
                        if c > j {
                            assert(!repeats_earlier(members@, j as int));
                        }
                    }
                }
                return Some(TypeError::DuplicateErrorSetMember {
                    set_name: name,
                    member_name: owned(members[j].name.as_str()),
                    span: TypeError::span_from_span(members[j].span),
                });
            }
            proof {
                assert forall|a: int| 0 <= a < j implies members@[a].name@ != members@[j as int].name@ by {
                    assert(seen@.contains_key(members@[a].name@));
                }
            }
            seen.insert(owned(members[j].name.as_str()), ());
            proof {
                assert forall|k: Seq<char>| #[trigger] seen@.contains_key(k) <==> exists|a: int| 0 <= a < j + 1 && members@[a].name@ == k by {
                    if k == members@[j as int].name@ {
                        assert(members@[j as int].name@ == k);
                    }
                }
            }
            j = j + 1;
        }
        environment.register_type(owned(name.as_str()), stdlib_error_core_type(name.as_str()));
        let key = owned(name.as_str());
        self.sets.insert(key, ErrorSetDeclarationInfo { name, members, visibility, span });
        None
    }

    /// Begin collecting the error leaves that can escape a function or lambda body.
    pub fn begin_escaping_error_collection(&mut self)
        requires
            old(self).wf(),
        ensures
            final(self).wf(),
            final(self).sets() == old(self).sets(),
            final(self).escaping() == old(self).escaping().push(Set::empty()),
    {
        self.escaping_error_stack.push(NameMap::new());
        assert(self.escaping() =~= old(self).escaping().push(Set::empty()));
    }

    /// Finish the innermost collection and return its leaves in ascending order; nothing
    /// when no collection is open.
    pub fn end_escaping_error_collection(&mut self) -> (r: Vec<String>)
        requires
            old(self).wf(),
        ensures
            final(self).wf(),
            final(self).sets() == old(self).sets(),
            old(self).escaping().len() == 0 ==> r@.len() == 0 && final(self).escaping() == old(self).escaping(),
            old(self).escaping().len() > 0 ==> lists_sorted(r@, old(self).escaping().last())
                && final(self).escaping() == old(self).escaping().drop_last(),
    {
        match self.escaping_error_stack.pop() {
            Some(set) => {
                assert(self.escaping() =~= old(self).escaping().drop_last());
                sorted_names(set)
            },
            None => Vec::new(),
        }
    }

    /// Record error leaves that can escape through a checked propagation path, by
    /// their display names, into the innermost open collection.
    pub fn record_escaping_error_types(&mut self, error_types: &[CoreType])
        requires
            old(self).wf(),
        ensures
            final(self).wf(),
            final(self).sets() == old(self).sets(),
            old(self).escaping().len() == 0 ==> final(self).escaping() == old(self).escaping(),
            old(self).escaping().len() > 0 ==> final(self).escaping() == old(self).escaping().update(
                old(self).escaping().len() - 1,
                old(self).escaping().last().union(displayed_names(error_types@)),
            ),
    {
        let n = self.escaping_error_stack.len();
        if n == 0 {
            return;
        }
        let mut active = self.escaping_error_stack.pop().unwrap();
        let ghost base = active@.dom();
        let mut i: usize = 0;
        while i < error_types.len()
            invariant
                i <= error_types@.len(),
                active.wf(),
                active@.dom() == base.union(displayed_names(error_types@.take(i as int))),
            decreases error_types@.len() - i,
        {
            let shown = error_types[i].display_name();
            active.insert(shown, ());
            proof {
                let q = error_types@;
                assert(q.take(i + 1).drop_last() =~= q.take(i as int));
                assert(q.take(i + 1).last() == q[i as int]);
                assert(active@.dom() =~= base.union(displayed_names(q.take(i + 1))));
            }
            i = i + 1;
        }
        proof {
            assert(error_types@.take(error_types@.len() as int) =~= error_types@);
        }
        self.escaping_error_stack.push(active);
        proof {
            assert(self.escaping() =~= old(self).escaping().update(
                old(self).escaping().len() - 1,
                old(self).escaping().last().union(displayed_names(error_types@)),
            ));
        }
    }

    /// Resolve one error annotation: a name bound to a generic error variable stands for
    /// that type; any other plain name is expanded into its leaf errors; any other
    /// annotation is converted as a type.
    pub fn resolve_error_annotation_type_with_generics(
        &self,
        families: &[StdlibErrorFamily],
        environment: &TypeEnvironment,
        symbols: &NameMap<SymbolInfo>,
        ast_type: &Type,
        generic_bindings: &[(String, CoreType)],
    ) -> (r: Result<Vec<CoreType>, TypeError>)
        requires
            self.wf(),
            environment.wf(),
            symbols.wf(),
        ensures
            match *ast_type {
                Type::Basic { name, span } => match first_binding(generic_bindings@, name@) {
                    Some(k) => r matches Ok(v) && v@.len() == 1 && model_of(v@[0]) == model_of(generic_bindings@[k].1),
                    None => resolved(scope_of(self, families, environment, symbols), seq![name@], span, r),
                },
                _ => match r {
                    Ok(v) => v@.len() == 1 && converted(Ok(v@[0]), annotation_model(*ast_type)),
                    Err(e) => converted(Err(e), annotation_model(*ast_type)),
                },
            },
    {
        match ast_type {
            Type::Basic { name, span } => {
                match find_binding(generic_bindings, name.as_str()) {
                    Some(k) => {
                        let mut out: Vec<CoreType> = Vec::new();
                        out.push(generic_bindings[k].1.duplicate());
                        return Ok(out);
                    },
                    None => {},
                }
                let mut names: Vec<String> = Vec::new();
                names.push(owned(name.as_str()));
                proof {
                    assert(names_of(names@) =~= seq![name@]);
                }
                self.resolve_error_types(families, environment, symbols, names.as_slice(), *span)
            },
            _ => match ast_type_to_core_type(ast_type) {
                Ok(t) => {
                    let mut out: Vec<CoreType> = Vec::new();
                    out.push(t);
                    Ok(out)
                },
                Err(e) => Err(e),
            },
        }
    }

    /// Return true when a source spelling should be linted as an error set rather than a
    /// leaf: a declared set, or a family other than one whose only member is itself.
    pub fn is_warning_error_set_name(&self, families: &[StdlibErrorFamily], name: &str) -> (r: bool)
        requires
            self.wf(),
        ensures
            r == (self.sets().contains_key(name@) || match family_index(families@, name@) {
                Some(i) => member_names(families@[i]) != seq![name@],
                None => false,
            }),
    {
        if self.sets.contains_key(name) {
            return true;
        }
        match stdlib_error_family(families, name) {
            Some(family) => {
                let only_itself = family.members.len() == 1 && str_eq(family.members[0].as_str(), name);
                proof {
                    if only_itself {
                        assert(member_names(*family) =~= seq![name@]);
                    } else if member_names(*family) == seq![name@] {
                        assert(member_names(*family).len() == 1);
                        assert(member_names(*family)[0] == family.members@[0]@);
                    }
                }
                !only_itself
            },
            None => false,
        }
    }

    /// The leaves `name` expands to, once each in ascending order; `None` when it
    /// fails to expand.
    pub fn warning_error_name_expansion(
        &self,
        families: &[StdlibErrorFamily],
        environment: &TypeEnvironment,
        symbols: &NameMap<SymbolInfo>,
        name: &str,
        span: Span,
    ) -> (r: Option<Vec<String>>)
        requires
            self.wf(),
            environment.wf(),
            symbols.wf(),
        ensures
            ({
                let e = expansion(scope_of(self, families, environment, symbols), name@, span, Seq::empty());
                &&& r is Some <==> e is Ok
                &&& r matches Some(v) ==> (e matches Ok(s) && lists_sorted(v@, s))
            }),
    {
        let mut stack: Vec<String> = Vec::new();
        proof {
            assert(names_of(stack@) =~= Seq::<Seq<char>>::empty());
            self.lemma_finite();
            lemma_family_index(families@, name@);
        }
        match self.expand_error_name_to_leaf_names(families, environment, symbols, name, span, &mut stack) {
            Ok(found) => {
                let mut set: NameMap<()> = NameMap::new();
                insert_names(&mut set, &found);
                proof {
                    let sc = scope_of(self, families, environment, symbols);
                    let leaves = expansion(sc, name@, span, Seq::empty())->Ok_0;
                    match family_index(sc.families, name@) {
                        Some(k) => {
                            assert(leaves == member_names(sc.families[k]).to_set());
                        },
                        None => {},
                    }
                    assert(set@.dom() =~= leaves);
                }
                Some(sorted_names(set))
            },
            Err(_) => None,
        }
    }

    /// Find the preferred visible named set whose expansion is exactly `members` (a
    /// list of names in ascending order): the least declared one, else the preferred
    /// eligible stdlib family.
    pub fn preferred_exact_error_set_name_for_members(
        &self,
        families: &[StdlibErrorFamily],
        environment: &TypeEnvironment,
        symbols: &NameMap<SymbolInfo>,
        members: &Vec<String>,
        span: Span,
    ) -> (r: Option<String>)
        requires
            self.wf(),
            environment.wf(),
            symbols.wf(),
            keys_ascending(names_of(members@)),
        ensures
            match preferred_name_for(
                scope_of(self, families, environment, symbols),
                names_of(members@).to_set(),
                members@.len(),
                span,
            ) {
                Some(n) => r matches Some(x) && x@ == n,
                None => r is None,
            },
    {
        let ghost sc = scope_of(self, families, environment, symbols);
        let ghost leaves = names_of(members@).to_set();
        let ghost n = members@.len();
        if members.len() <= 1 {
            return None;
        }
        proof {
            self.sets.lemma_view();
        }
        let ghost entries = self.sets.entries_spec();
        let count = self.sets.len();
        let mut i: usize = 0;
        while i < count
            invariant
                self.wf(),
                environment.wf(),
                symbols.wf(),
                sc == scope_of(self, families, environment, symbols),
                entries == self.sets.entries_spec(),
                count == entries.len(),
                i <= count,
                n == members@.len(),
                n > 1,
                keys_ascending(names_of(members@)),
                leaves == names_of(members@).to_set(),
                forall|a: int| 0 <= a < i ==> !set_spells(sc, #[trigger] entries[a].0@, span, leaves),
            decreases count - i,
        {
            let (key, info) = self.sets.entry_at(i);
            proof {
                self.sets.lemma_view();
                assert(sc.sets.contains_key(entries[i as int].0@));
                assert(info.name@ == key@);
            }
            match self.warning_error_name_expansion(families, environment, symbols, info.name.as_str(), span) {
                Some(found) => {
                    if names_equal(found.as_slice(), members.as_slice()) {
                        proof {
                            assert(set_spells(sc, key@, span, leaves));
                            assert forall|k2: Seq<char>| #[trigger] set_spells(sc, k2, span, leaves) implies k2 == key@
                                || seq_less(key@, k2) by {
                                let b = choose|b: int| 0 <= b < entries.len() && entries[b].0@ == k2;
                                if b < i {
                                    assert(!set_spells(sc, entries[b].0@, span, leaves));
                                } else if b > i {
                                    assert(entry_keys(entries)[i as int] == key@);
                                    assert(entry_keys(entries)[b] == k2);
                                }
                            }
                            lemma_preferred_is_set(sc, leaves, n, span, key@);
                        }
                        return Some(owned(key.as_str()));
                    }
                    proof {
                        if set_spells(sc, key@, span, leaves) {
                            lemma_ascending_unique(names_of(found@), names_of(members@));
                        }
                    }
                },
                None => {},
            }
            i = i + 1;
        }
        proof {
            assert forall|k: Seq<char>| !#[trigger] set_spells(sc, k, span, leaves) by {
                if sc.sets.contains_key(k) {
                    let b = choose|b: int| 0 <= b < entries.len() && entries[b].0@ == k;
                    assert(!set_spells(sc, entries[b].0@, span, leaves));
                }
            }
        }
        let mut best: Option<usize> = None;
        let mut g: usize = 0;
        while g < families.len()
            invariant
                g <= families@.len(),
                n > 1,
                sc == scope_of(self, families, environment, symbols),
                forall|k: Seq<char>| !#[trigger] set_spells(sc, k, span, leaves),
                keys_ascending(names_of(members@)),
                leaves == names_of(members@).to_set(),
                n == members@.len(),
                best is None ==> forall|a: int| 0 <= a < g ==> !#[trigger] family_spells(families@[a], leaves, n),
                best matches Some(b) ==> b < g && family_spells(families@[b as int], leaves, n)
                    && (forall|a: int| 0 <= a < g && #[trigger] family_spells(families@[a], leaves, n) ==> !family_preferred(
                    families@[a],
                    families@[b as int],
                )) && (forall|a: int| 0 <= a < b && #[trigger] family_spells(families@[a], leaves, n) ==> family_preferred(
                    families@[b as int],
                    families@[a],
                )),
            decreases families@.len() - g,
        {
            let family = &families[g];
            if family.warning_eligible && family.members.len() == members.len() && all_listed(&family.members, members) {
                let better = match best {
                    None => true,
                    Some(b) => {
                        let current = &families[b];
                        family.specificity_rank < current.specificity_rank || (family.specificity_rank
                            == current.specificity_rank && (family.members.len() < current.members.len() || (
                        family.members.len() == current.members.len() && str_less(
                            family.name.as_str(),
                            current.name.as_str(),
                        ))))
                    },
                };
                proof {
                    assert(family_spells(*family, leaves, n));
                    if let Some(b) = best {
                        let fb = families@[b as int];
                        assert(better == family_preferred(*family, fb));
                        if better {
                            assert forall|a: int| 0 <= a < g + 1 && #[trigger] family_spells(families@[a], leaves, n)
                                implies !family_preferred(families@[a], *family) by {
                                if a < g {
                                    lemma_preferred_total(families@[a], *family);
                                    if family_preferred(families@[a], *family) {
                                        lemma_preferred_transitive(families@[a], *family, fb);
                                    }
                                } else {
                                    lemma_preferred_total(*family, *family);
                                }
                            }
                            assert forall|a: int| 0 <= a < g && #[trigger] family_spells(families@[a], leaves, n)
                                implies family_preferred(*family, families@[a]) by {
                                if a < b {
                                    lemma_preferred_transitive(*family, fb, families@[a]);
                                } else if a > b {
                                    lemma_preferred_total(fb, families@[a]);
                                    if family_preferred(fb, families@[a]) {
                                        lemma_preferred_transitive(*family, fb, families@[a]);
                                    }
                                }
                            }
                        } else {
                            lemma_preferred_total(*family, fb);
                        }
                    } else {
                        lemma_preferred_total(*family, *family);
                    }
                }
                if better {
                    best = Some(g);
                }
            } else {
                proof {
                    if family_spells(*family, leaves, n) {
                        assert(all_listed_spec(family.members@, names_of(members@)));
                    }
                }
            }
            g = g + 1;
        }
        match best {
            Some(b) => {
                proof {
                    lemma_preferred_is_family(sc, leaves, n, span, b as int);
                }
                Some(owned(families[b].name.as_str()))
            },
            None => None,
        }
    }

    /// The named sets of an `errors` clause that expand, with their leaves, and its leaf
    /// names, both in clause order.
    fn collect_clause_names(
        &self,
        families: &[StdlibErrorFamily],
        environment: &TypeEnvironment,
        symbols: &NameMap<SymbolInfo>,
        source_error_names: &[String],
        span: Span,
    ) -> (r: (Vec<(String, Vec<String>)>, Vec<String>))
        requires
            self.wf(),
            environment.wf(),
            symbols.wf(),
        ensures
            sets_listed(r.0@, source_sets(scope_of(self, families, environment, symbols), names_of(source_error_names@), span)),
            names_of(r.1@) == source_leaves(scope_of(self, families, environment, symbols), names_of(source_error_names@)),
    {
        let ghost sc = scope_of(self, families, environment, symbols);
        let ghost names = names_of(source_error_names@);
        let mut sets: Vec<(String, Vec<String>)> = Vec::new();
        let mut leaves: Vec<String> = Vec::new();
        let mut i: usize = 0;
        while i < source_error_names.len()
            invariant
                self.wf(),
                environment.wf(),
                symbols.wf(),
                sc == scope_of(self, families, environment, symbols),
                names == names_of(source_error_names@),
                i <= source_error_names@.len(),
                sets_listed(sets@, source_sets(sc, names.take(i as int), span)),
                names_of(leaves@) == source_leaves(sc, names.take(i as int)),
            decreases source_error_names@.len() - i,
        {
            let name = source_error_names[i].as_str();
            proof {
                assert(names.take(i + 1).drop_last() =~= names.take(i as int));
                assert(names.take(i + 1).last() == name@);
            }
            if self.is_warning_error_set_name(families, name) {
                match self.warning_error_name_expansion(families, environment, symbols, name, span) {
                    Some(members) => {
                        let ghost before = sets@;
                        sets.push((owned(name), members));
                        proof {
                            let ss = source_sets(sc, names.take(i + 1), span);
                            assert(ss == source_sets(sc, names.take(i as int), span).push(
                                (name@, expansion(sc, name@, span, Seq::empty())->Ok_0),
                            ));
                            assert forall|k: int| #![trigger sets@[k]] 0 <= k < sets@.len() implies sets@[k].0@ == ss[k].0
                                && lists_sorted(sets@[k].1@, ss[k].1) by {
                                if k < before.len() {
                                    assert(sets@[k] == before[k]);
                                }
                            }
                        }
                    },
                    None => {},
                }
            } else {
                let ghost before = leaves@;
                leaves.push(owned(name));
                proof {
                    assert(leaves@.drop_last() =~= before);
                    assert(names_of(leaves@) =~= names_of(before).push(name@));
                }
            }
            i = i + 1;
        }
        proof {
            assert(names.take(source_error_names@.len() as int) =~= names);
        }
        (sets, leaves)
    }

    /// Lint a clause of two or more leaves and no sets that one named set spells.
    #[verifier::spinoff_prover]
    #[verifier::rlimit(40)]
    fn push_replaceable_lint(
        &self,
        families: &[StdlibErrorFamily],
        environment: &TypeEnvironment,
        symbols: &NameMap<SymbolInfo>,
        warnings: &mut Vec<Warning>,
        source_error_names: &[String],
        sets: &Vec<(String, Vec<String>)>,
        leaves: &Vec<String>,
        expanded_error_types: &[CoreType],
        span: Span,
    )
        requires
            self.wf(),
            environment.wf(),
            symbols.wf(),
            sets_listed(sets@, source_sets(scope_of(self, families, environment, symbols), names_of(source_error_names@), span)),
            names_of(leaves@) == source_leaves(scope_of(self, families, environment, symbols), names_of(source_error_names@)),
        ensures
            appended_lints(
                old(warnings)@,
                final(warnings)@,
                replaceable_lints(
                    scope_of(self, families, environment, symbols),
                    names_of(source_error_names@),
                    displayed_names(expanded_error_types@),
                    span,
                ),
                span,
            ),
    {
        let ghost sc = scope_of(self, families, environment, symbols);
        let ghost expanded = displayed_names(expanded_error_types@);
        if sets.len() == 0 && source_error_names.len() > 1 {
            let mut shown: NameMap<()> = NameMap::new();
            let mut i: usize = 0;
            while i < expanded_error_types.len()
                invariant
                    i <= expanded_error_types@.len(),
                    shown.wf(),
                    shown@.dom() == displayed_names(expanded_error_types@.take(i as int)),
                decreases expanded_error_types@.len() - i,
            {
                let name = expanded_error_types[i].display_name();
                shown.insert(name, ());
                proof {
                    let q = expanded_error_types@;
                    assert(q.take(i + 1).drop_last() =~= q.take(i as int));
                    assert(q.take(i + 1).last() == q[i as int]);
                    assert(shown@.dom() =~= displayed_names(q.take(i + 1)));
                }
                i = i + 1;
            }
            proof {
                assert(expanded_error_types@.take(expanded_error_types@.len() as int) =~= expanded_error_types@);
            }
            let listed = sorted_names(shown);
            proof {
                lemma_listing_len(listed@, expanded);
            }
            match self.preferred_exact_error_set_name_for_members(families, environment, symbols, &listed, span) {
                Some(set_name) => {
                    let firsts = first_occurrence_list(leaves);
                    proof {
                        reveal_strlit(", ");
                        assert(", "@ =~= comma());
                    }
                    let ghost before = warnings@;
                    warnings.push(Warning::ReplaceableErrorList {
                        family_name: set_name,
                        replaceable_errors: join_names_slice(firsts.as_slice(), ", "),
                        span: TypeError::span_from_span(span),
                        suppression_annotation: None,
                    });
                    proof {
                        let lints = replaceable_lints(sc, names_of(source_error_names@), expanded, span);
                        assert(lints.len() == 1);
                        assert(warnings@.subrange(0, before.len() as int) =~= before);
                        assert(is_lint(warnings@[before.len() as int], lints[0], span));
                    }
                },
                None => {
                    proof {
                        assert(warnings@.subrange(0, warnings@.len() as int) =~= warnings@);
                    }
                },
            }
        } else {
            proof {
                assert(warnings@.subrange(0, warnings@.len() as int) =~= warnings@);
            }
        }
    }

    /// Lint each listed set of which the body can raise some members but not all.
    fn push_unused_lints(
        &self,
        families: &[StdlibErrorFamily],
        environment: &TypeEnvironment,
        symbols: &NameMap<SymbolInfo>,
        warnings: &mut Vec<Warning>,
        sets: &Vec<(String, Vec<String>)>,
        Ghost(ss): Ghost<Seq<(Seq<char>, Set<Seq<char>>)>>,
        escaping: &Vec<String>,
        span: Span,
    )
        requires
            self.wf(),
            environment.wf(),
            symbols.wf(),
            sets_listed(sets@, ss),
            keys_ascending(names_of(escaping@)),
        ensures
            appended_lints(
                old(warnings)@,
                final(warnings)@,
                unused_lints(scope_of(self, families, environment, symbols), ss, names_of(escaping@), span, ss.len() as int),
                span,
            ),
    {
        let ghost sc = scope_of(self, families, environment, symbols);
        let ghost esc = names_of(escaping@);
        let ghost e = esc.to_set();
        let ghost start = warnings@;
        proof {
            assert(start.subrange(0, start.len() as int) =~= start);
            lemma_listing_len(escaping@, e);
            reveal_strlit(", ");
            assert(", "@ =~= comma());
        }
        let mut k: usize = 0;
        while k < sets.len()
            invariant
                self.wf(),
                environment.wf(),
                symbols.wf(),
                sc == scope_of(self, families, environment, symbols),
                esc == names_of(escaping@),
                e == esc.to_set(),
                keys_ascending(esc),
                escaping@.len() == e.len(),
                ", "@ == comma(),
                k <= sets@.len(),
                sets_listed(sets@, ss),
                appended_lints(start, warnings@, unused_lints(sc, ss, esc, span, k as int), span),
            decreases sets@.len() - k,
        {
            let members = &sets[k].1;
            let ghost ms = ss[k as int].1;
            proof {
                assert(lists_sorted(members@, ms));
                lemma_all_listed_subset(members@, esc);
            }
            if all_listed(members, escaping) || none_listed(members, escaping) {
                k = k + 1;
                continue;
            }
            let unused = names_not_in(members, escaping);
            let listed_unused = join_names_slice(unused.as_slice(), ", ");
            let suggestion = match self.preferred_exact_error_set_name_for_members(families, environment, symbols, escaping, span) {
                Some(p) => p,
                None => join_names_slice(escaping.as_slice(), ", "),
            };
            let ghost mid = warnings@;
            warnings.push(Warning::ErrorSetUnusedMembers {
                set_name: owned(sets[k].0.as_str()),
                unused_members: listed_unused,
                suggested_errors: suggestion,
                span: TypeError::span_from_span(span),
                suppression_annotation: None,
            });
            proof {
                let d = ms.difference(e);
                assert(keys_ascending(names_of(unused@)) && names_of(unused@).to_set() == d);
                let c = sorted_listing(d);
                lemma_ascending_unique(c, names_of(unused@));
                let step = seq![
                    LintModel::ErrorSetUnusedMembers {
                        set_name: ss[k as int].0,
                        unused_members: joined(sorted_listing(d), comma()),
                        suggested_errors: match preferred_name_for(sc, e, e.len(), span) {
                            Some(p) => p,
                            None => joined(esc, comma()),
                        },
                    },
                ];
                assert(warnings@.subrange(0, mid.len() as int) =~= mid);
                assert(is_lint(warnings@[mid.len() as int], step[0], span));
                assert(appended_lints(mid, warnings@, step, span));
                lemma_appended_chain(start, mid, warnings@, unused_lints(sc, ss, esc, span, k as int), step, span);
                assert(unused_lints(sc, ss, esc, span, k + 1) =~= unused_lints(sc, ss, esc, span, k as int) + step);
            }
            k = k + 1;
        }
    }

    /// Emit the named-error-set lints of a source `errors` clause: a list of leaves one
    /// set spells, leaves a listed set covers, listed sets that include each other, and,
    /// given the leaves (in ascending order) the body can raise, listed sets with members
    /// it cannot.
    pub fn warn_for_error_clause(
        &self,
        families: &[StdlibErrorFamily],
        environment: &TypeEnvironment,
        symbols: &NameMap<SymbolInfo>,
        warnings: &mut Vec<Warning>,
        source_error_names: &[String],
        expanded_error_types: &[CoreType],
        escaping_error_names: Option<&Vec<String>>,
        span: Span,
    )
        requires
            self.wf(),
            environment.wf(),
            symbols.wf(),
            escaping_error_names matches Some(esc) ==> keys_ascending(names_of(esc@)),
        ensures
            appended_lints(
                old(warnings)@,
                final(warnings)@,
                clause_lints(
                    scope_of(self, families, environment, symbols),
                    names_of(source_error_names@),
                    displayed_names(expanded_error_types@),
                    match escaping_error_names {
                        Some(esc) => Some(names_of(esc@)),
                        None => None,
                    },
                    span,
                ),
                span,
            ),
    {
        let ghost sc = scope_of(self, families, environment, symbols);
        let ghost names = names_of(source_error_names@);
        let ghost ss = source_sets(sc, names, span);
        let ghost expanded = displayed_names(expanded_error_types@);
        let ghost w0 = warnings@;
        let (sets, leaves) = self.collect_clause_names(families, environment, symbols, source_error_names, span);
        self.push_replaceable_lint(
            families,
            environment,
            symbols,
            warnings,
            source_error_names,
            &sets,
            &leaves,
            expanded_error_types,
            span,
        );
        let ghost w1 = warnings@;
        push_redundant_lints(warnings, &leaves, &sets, Ghost(ss), span);
        let ghost w2 = warnings@;
        push_overlap_lints(warnings, &sets, Ghost(ss), span);
        let ghost w3 = warnings@;
        proof {
            lemma_appended_chain(
                w0,
                w1,
                w2,
                replaceable_lints(sc, names, expanded, span),
                redundant_lints(source_leaves(sc, names), ss),
                span,
            );
            lemma_appended_chain(
                w0,
                w2,
                w3,
                replaceable_lints(sc, names, expanded, span) + redundant_lints(source_leaves(sc, names), ss),
                overlap_lints(ss, ss.len() as int),
                span,
            );
        }
        let ghost before_unused = replaceable_lints(sc, names, expanded, span) + redundant_lints(source_leaves(sc, names), ss)
            + overlap_lints(ss, ss.len() as int);
        match escaping_error_names {
            Some(esc) => {
                if esc.len() > 0 {
                    self.push_unused_lints(families, environment, symbols, warnings, &sets, Ghost(ss), esc, span);
                    proof {
                        lemma_appended_chain(
                            w0,
                            w3,
                            warnings@,
                            before_unused,
                            unused_lints(sc, ss, names_of(esc@), span, ss.len() as int),
                            span,
                        );
                    }
                } else {
                    proof {
                        assert(before_unused + Seq::<LintModel>::empty() =~= before_unused);
                    }
                }
            },
            None => {
                proof {
                    assert(before_unused + Seq::<LintModel>::empty() =~= before_unused);
                }
            },
        }
    }

    /// `name` is visible as a type in the environment or among the symbols.
    fn is_visible_type_name(environment: &TypeEnvironment, symbols: &NameMap<SymbolInfo>, name: &str, span: Span) -> (r: bool)
        requires
            environment.wf(),
            symbols.wf(),
        ensures
            r == (environment.types().contains_key(name@) || (symbols@.contains_key(name@)
                && symbols@[name@].symbol_type == SymbolType::Type)),
    {
        environment.lookup_type(name, span).is_ok() || match symbols.get(name) {
            Some(symbol) => symbol.symbol_type == SymbolType::Type,
            None => false,
        }
    }
}

} // verus!
