//! Transactional affine aggregate metadata and its validation.

use vstd::prelude::*;
use crate::text::{join5, join7, owned, seq_less, starts_with, contains, str_eq, str_less,
    has_prefix, has_infix, occurs_at, lemma_seq_less_total, lemma_seq_less_transitive,
    lemma_seq_less_irreflexive};
use crate::types::{CoreType, model_of, TypeModel};

verus! {

/// One member obligation controlled by a transactional aggregate.
#[derive(Debug, Clone, PartialEq, Eq)]
pub struct AffineAggregateSlotSpec {
    /// Declared slot or variant member name.
    pub name: String,
    /// Nominal member resource type stored in this slot.
    pub type_label: String,
    /// Whether this slot owns cleanup authority when initialized.
    pub owns_obligation: bool,
}

impl AffineAggregateSlotSpec {
    /// Build a cleanup-owning slot specification.
    pub fn owning(name: &str, type_label: &str) -> (r: Self)
        ensures
            r.name@ == name@,
            r.type_label@ == type_label@,
            r.owns_obligation,
    {
        AffineAggregateSlotSpec { name: owned(name), type_label: owned(type_label), owns_obligation: true }
    }

    /// Build a value-only slot specification.
    pub fn value(name: &str, type_label: &str) -> (r: Self)
        ensures
            r.name@ == name@,
            r.type_label@ == type_label@,
            !r.owns_obligation,
    {
        AffineAggregateSlotSpec { name: owned(name), type_label: owned(type_label), owns_obligation: false }
    }
}

/// One compiler-authorized same-owner layout transition helper.
#[derive(Debug, Clone, PartialEq, Eq)]
pub struct AffineAggregateTransitionSpec {
    /// Infallible helper that commits this transition.
    pub operation: String,
    /// Complete old-layout obligation keys.
    pub old_layout: Vec<String>,
    /// Complete new-layout obligation keys.
    pub new_layout: Vec<String>,
}

/// Views of a sequence of strings.
pub open spec fn views(s: Seq<String>) -> Seq<Seq<char>> {
    s.map_values(|x: String| x@)
}

/// Owned copies of a slice of string slices.
fn owned_all(items: &[&str]) -> (r: Vec<String>)
    ensures
        views(r@) == items@.map_values(|x: &str| x@),
{
    let mut out: Vec<String> = Vec::new();
    let mut i: usize = 0;
    while i < items.len()
        invariant
            i <= items@.len(),
            out@.len() == i,
            forall|j: int| 0 <= j < i ==> #[trigger] out@[j]@ == items@[j]@,
        decreases items@.len() - i,
    {
        out.push(owned(items[i]));
        i = i + 1;
    }
    assert(views(out@) =~= items@.map_values(|x: &str| x@));
    out
}

impl AffineAggregateTransitionSpec {
    /// Build a transition specification.
    pub fn new(operation: &str, old_layout: &[&str], new_layout: &[&str]) -> (r: Self)
        ensures
            r.operation@ == operation@,
            views(r.old_layout@) == old_layout@.map_values(|x: &str| x@),
            views(r.new_layout@) == new_layout@.map_values(|x: &str| x@),
    {
        AffineAggregateTransitionSpec {
            operation: owned(operation),
            old_layout: owned_all(old_layout),
            new_layout: owned_all(new_layout),
        }
    }
}

/// A fallible operation whose successful retarget must be followed by one commit helper.
#[derive(Debug, Clone, PartialEq, Eq)]
pub struct AffineAggregateRetargetRule {
    /// Fallible retarget operation that changes a member host relationship.
    pub operation: String,
    /// Required immediately-following infallible commit operation.
    pub commit_operation: String,
}

impl AffineAggregateRetargetRule {
    /// Build a retarget/commit pair.
    pub fn new(operation: &str, commit_operation: &str) -> (r: Self)
        ensures
            r.operation@ == operation@,
            r.commit_operation@ == commit_operation@,
    {
        AffineAggregateRetargetRule { operation: owned(operation), commit_operation: owned(commit_operation) }
    }
}

/// Opt-in transactional aggregate declaration metadata.
#[derive(Debug, Clone, PartialEq, Eq)]
pub struct AffineAggregateSpec {
    /// Nominal aggregate owner type.
    pub type_label: String,
    /// Named constructor that may form the aggregate owner.
    pub constructor: String,
    /// Sole cleanup operation for the sealed aggregate owner.
    pub cleanup_operation: String,
    /// Member slots that can own provisional obligations.
    pub slots: Vec<AffineAggregateSlotSpec>,
    /// Deterministic sealed cleanup order for owning slots.
    pub cleanup_order: Vec<String>,
    /// Declared same-owner layout transition helpers.
    pub transitions: Vec<AffineAggregateTransitionSpec>,
    /// Retarget calls whose success requires immediate commit.
    pub retarget_rules: Vec<AffineAggregateRetargetRule>,
    /// Private helper name prefixes that may perform declared transitions.
    pub transition_prefixes: Vec<String>,
}

/// `name` is a declared slot.
pub open spec fn declares_slot(spec: AffineAggregateSpec, name: Seq<char>) -> bool {
    exists|i: int| 0 <= i < spec.slots@.len() && #[trigger] spec.slots@[i].name@ == name
}

/// Index of the first slot declared with `name`.
pub open spec fn first_slot_index(spec: AffineAggregateSpec, name: Seq<char>) -> int {
    choose|i: int|
        0 <= i < spec.slots@.len() && spec.slots@[i].name@ == name && forall|j: int|
            0 <= j < i ==> spec.slots@[j].name@ != name
}

/// `operation` is a declared transition helper.
pub open spec fn declares_transition(spec: AffineAggregateSpec, operation: Seq<char>) -> bool {
    exists|i: int| 0 <= i < spec.transitions@.len() && #[trigger] spec.transitions@[i].operation@ == operation
}

/// Index of the first retarget rule for `operation`, when one exists.
pub open spec fn first_rule_index(spec: AffineAggregateSpec, operation: Seq<char>) -> Option<int> {
    if exists|i: int| 0 <= i < spec.retarget_rules@.len() && #[trigger] spec.retarget_rules@[i].operation@ == operation {
        Some(
            choose|i: int|
                0 <= i < spec.retarget_rules@.len() && spec.retarget_rules@[i].operation@ == operation
                    && forall|j: int| 0 <= j < i ==> spec.retarget_rules@[j].operation@ != operation,
        )
    } else {
        None
    }
}

/// A helper name is reserved for transitions: it starts with a declared prefix and
/// mentions `commit` or `swap`.
pub open spec fn reserved_transition_name(spec: AffineAggregateSpec, operation: Seq<char>) -> bool {
    (exists|i: int| 0 <= i < spec.transition_prefixes@.len() && has_prefix(operation, #[trigger] spec.transition_prefixes@[i]@))
        && (has_infix(operation, "commit"@) || has_infix(operation, "swap"@))
}

/// Leftmost index of a first occurrence, found by a scan.
proof fn lemma_first_index_exists(s: Seq<Seq<char>>, x: Seq<char>, i: int)
    requires
        0 <= i < s.len(),
        s[i] == x,
    ensures
        exists|k: int| 0 <= k < s.len() && s[k] == x && forall|j: int| 0 <= j < k ==> s[j] != x,
    decreases i,
{
    if exists|j: int| 0 <= j < i && s[j] == x {
        let j = choose|j: int| 0 <= j < i && s[j] == x;
        lemma_first_index_exists(s, x, j);
    }
}

impl AffineAggregateSpec {
    /// Return whether `slot_name` is a declared member slot.
    pub fn has_slot(&self, slot_name: &str) -> (r: bool)
        ensures
            r == declares_slot(*self, slot_name@),
    {
        let mut i: usize = 0;
        while i < self.slots.len()
            invariant
                i <= self.slots@.len(),
                forall|j: int| 0 <= j < i ==> self.slots@[j].name@ != slot_name@,
            decreases self.slots@.len() - i,
        {
            if str_eq(self.slots[i].name.as_str(), slot_name) {
                return true;
            }
            i = i + 1;
        }
        false
    }

    /// Return the nominal resource type for a member slot (the first slot with that name).
    pub fn slot_type(&self, slot_name: &str) -> (r: Option<&str>)
        ensures
            r is Some <==> declares_slot(*self, slot_name@),
            r matches Some(t) ==> t@ == self.slots@[first_slot_index(*self, slot_name@)].type_label@,
    {
        let mut i: usize = 0;
        while i < self.slots.len()
            invariant
                i <= self.slots@.len(),
                forall|j: int| 0 <= j < i ==> self.slots@[j].name@ != slot_name@,
            decreases self.slots@.len() - i,
        {
            if str_eq(self.slots[i].name.as_str(), slot_name) {
                let ghost k = first_slot_index(*self, slot_name@);
                proof {
                    assert(0 <= i < self.slots@.len() && self.slots@[i as int].name@ == slot_name@
                        && forall|j: int| 0 <= j < i ==> self.slots@[j].name@ != slot_name@);
                    if k < i {
                        assert(self.slots@[k].name@ == slot_name@);
                    }
                    if k > i {
                        assert(self.slots@[i as int].name@ != slot_name@);
                    }
                }
                return Some(self.slots[i].type_label.as_str());
            }
            i = i + 1;
        }
        None
    }

    /// Return whether `operation` is a declared transition helper.
    pub fn has_transition_operation(&self, operation: &str) -> (r: bool)
        ensures
            r == declares_transition(*self, operation@),
    {
        let mut i: usize = 0;
        while i < self.transitions.len()
            invariant
                i <= self.transitions@.len(),
                forall|j: int| 0 <= j < i ==> self.transitions@[j].operation@ != operation@,
            decreases self.transitions@.len() - i,
        {
            if str_eq(self.transitions[i].operation.as_str(), operation) {
                return true;
            }
            i = i + 1;
        }
        false
    }

    /// Find the first retarget rule for a fallible operation name.
    pub fn retarget_rule(&self, operation: &str) -> (r: Option<&AffineAggregateRetargetRule>)
        ensures
            r is Some <==> first_rule_index(*self, operation@) is Some,
            r matches Some(rule) ==> *rule == self.retarget_rules@[first_rule_index(*self, operation@)->0],
    {
        let mut i: usize = 0;
        while i < self.retarget_rules.len()
            invariant
                i <= self.retarget_rules@.len(),
                forall|j: int| 0 <= j < i ==> self.retarget_rules@[j].operation@ != operation@,
            decreases self.retarget_rules@.len() - i,
        {
            if str_eq(self.retarget_rules[i].operation.as_str(), operation) {
                let ghost k = first_rule_index(*self, operation@)->0;
                proof {
                    assert(0 <= i < self.retarget_rules@.len() && self.retarget_rules@[i as int].operation@ == operation@
                        && forall|j: int| 0 <= j < i ==> self.retarget_rules@[j].operation@ != operation@);
                    if k < i {
                        assert(self.retarget_rules@[k].operation@ == operation@);
                    }
                    if k > i {
                        assert(self.retarget_rules@[i as int].operation@ != operation@);
                    }
                }
                return Some(&self.retarget_rules[i]);
            }
            i = i + 1;
        }
        None
    }

    /// Return whether a helper name is reserved for aggregate transitions.
    pub fn helper_name_is_reserved_transition(&self, operation: &str) -> (r: bool)
        ensures
            r == reserved_transition_name(*self, operation@),
    {
        let mut i: usize = 0;
        let mut found = false;
        while i < self.transition_prefixes.len()
            invariant_except_break
                !found,
            invariant
                i <= self.transition_prefixes@.len(),
                forall|j: int| 0 <= j < i ==> !has_prefix(operation@, #[trigger] self.transition_prefixes@[j]@),
            ensures
                found ==> i < self.transition_prefixes@.len() && has_prefix(operation@, self.transition_prefixes@[i as int]@),
                !found ==> i == self.transition_prefixes@.len(),
            decreases self.transition_prefixes@.len() - i,
        {
            if starts_with(operation, self.transition_prefixes[i].as_str()) {
                found = true;
                break;
            }
            i = i + 1;
        }
        found && (contains(operation, "commit") || contains(operation, "swap"))
    }
}

/// Cleanup operation registered for a compiler-known affine resource.
pub open spec fn registered_cleanup(resource: Seq<char>) -> Option<Seq<char>> {
    if resource == "SystemWaitSet"@ {
        Some("system_wait_set_drop"@)
    } else if resource == "SystemOwnedWaitRegistration"@ {
        Some("system_owned_wait_registration_drop"@)
    } else if resource == "ProcessControlSource"@ {
        Some("process_control_source_drop"@)
    } else if resource == "MonotonicTimer"@ {
        Some("monotonic_timer_drop"@)
    } else if resource == "CancellationSource"@ {
        Some("cancellation_source_drop"@)
    } else if resource == "TerminalChordRouter"@ {
        Some("terminal_chord_router_drop"@)
    } else if resource == "TerminalSession"@ {
        Some("terminal_session_close_sync"@)
    } else if resource == "EditorChordRuntime"@ {
        Some("editor_chord_runtime_close"@)
    } else if resource == "TerminalAggregateFixture"@ {
        Some("terminal_aggregate_fixture_close"@)
    } else if resource == "TerminalAggregateMember"@ {
        Some("terminal_aggregate_member_drop"@)
    } else {
        None
    }
}

/// Return the cleanup operation for a compiler-known affine resource.
pub fn cleanup_operation_for_resource(resource_type: &str) -> (r: Option<&'static str>)
    ensures
        (match r {
            Some(s) => Some(s@),
            None => None,
        }) == registered_cleanup(resource_type@),
{
    if str_eq(resource_type, "SystemWaitSet") {
        Some("system_wait_set_drop")
    } else if str_eq(resource_type, "SystemOwnedWaitRegistration") {
        Some("system_owned_wait_registration_drop")
    } else if str_eq(resource_type, "ProcessControlSource") {
        Some("process_control_source_drop")
    } else if str_eq(resource_type, "MonotonicTimer") {
        Some("monotonic_timer_drop")
    } else if str_eq(resource_type, "CancellationSource") {
        Some("cancellation_source_drop")
    } else if str_eq(resource_type, "TerminalChordRouter") {
        Some("terminal_chord_router_drop")
    } else if str_eq(resource_type, "TerminalSession") {
        Some("terminal_session_close_sync")
    } else if str_eq(resource_type, "EditorChordRuntime") {
        Some("editor_chord_runtime_close")
    } else if str_eq(resource_type, "TerminalAggregateFixture") {
        Some("terminal_aggregate_fixture_close")
    } else if str_eq(resource_type, "TerminalAggregateMember") {
        Some("terminal_aggregate_member_drop")
    } else {
        None
    }
}

// ---------------------------------------------------------------------------
// Validation
// ---------------------------------------------------------------------------

/// First problem among the indices `0..n`, in index order.
pub open spec fn first_problem(n: int, f: spec_fn(int) -> Option<Seq<char>>) -> Option<Seq<char>>
    decreases n,
{
    if n <= 0 {
        None
    } else {
        match first_problem(n - 1, f) {
            Some(m) => Some(m),
            None => f(n - 1),
        }
    }
}

/// The first of two optional problems.
pub open spec fn either(a: Option<Seq<char>>, b: Option<Seq<char>>) -> Option<Seq<char>> {
    match a {
        Some(m) => Some(m),
        None => b,
    }
}

/// Some slot with this name owns an obligation.
pub open spec fn is_owning_slot(spec: AffineAggregateSpec, name: Seq<char>) -> bool {
    exists|j: int| 0 <= j < spec.slots@.len() && #[trigger] spec.slots@[j].name@ == name && spec.slots@[j].owns_obligation
}

/// The sealed cleanup order names `name`.
pub open spec fn in_cleanup_order(spec: AffineAggregateSpec, name: Seq<char>) -> bool {
    exists|k: int| 0 <= k < spec.cleanup_order@.len() && #[trigger] spec.cleanup_order@[k]@ == name
}

/// An owning slot name that the cleanup order does not cover.
pub open spec fn is_uncovered(spec: AffineAggregateSpec, name: Seq<char>) -> bool {
    is_owning_slot(spec, name) && !in_cleanup_order(spec, name)
}

/// Problem with slot `i`: a repeated name, or an owning member without a cleanup registration.
pub open spec fn slot_problem(spec: AffineAggregateSpec, i: int) -> Option<Seq<char>> {
    let s = spec.slots@[i];
    if exists|j: int| 0 <= j < i && #[trigger] spec.slots@[j].name@ == s.name@ {
        Some("duplicate obligation slot '"@ + s.name@ + "' in transactional affine aggregate '"@
            + spec.type_label@ + "'"@)
    } else if s.owns_obligation && registered_cleanup(s.type_label@) is None {
        Some("missing cleanup registration for aggregate member '"@ + s.name@ + "' of type '"@
            + s.type_label@ + "'"@)
    } else {
        None
    }
}

/// Problem with cleanup-order entry `k`: a repeat, or a name that is not an owning slot.
pub open spec fn cleanup_problem(spec: AffineAggregateSpec, k: int) -> Option<Seq<char>> {
    let c = spec.cleanup_order@[k]@;
    if exists|j: int| 0 <= j < k && #[trigger] spec.cleanup_order@[j]@ == c {
        Some("duplicate obligation cleanup '"@ + c + "' in transactional affine aggregate '"@
            + spec.type_label@ + "'"@)
    } else if !is_owning_slot(spec, c) {
        Some("cleanup order for transactional affine aggregate '"@ + spec.type_label@
            + "' names non-owning slot '"@ + c + "'"@)
    } else {
        None
    }
}

/// The lexicographically smallest uncovered owning slot name, if any.
pub open spec fn least_uncovered(spec: AffineAggregateSpec) -> Option<Seq<char>> {
    if exists|n: Seq<char>| is_uncovered(spec, n) {
        Some(choose|n: Seq<char>| is_uncovered(spec, n) && forall|m: Seq<char>| is_uncovered(spec, m) ==> !seq_less(m, n))
    } else {
        None
    }
}

/// Problem with cleanup coverage: the smallest owning slot missing from the cleanup order.
pub open spec fn coverage_problem(spec: AffineAggregateSpec) -> Option<Seq<char>> {
    match least_uncovered(spec) {
        Some(n) => Some("missing cleanup for aggregate member '"@ + n
            + "' in transactional affine aggregate '"@ + spec.type_label@ + "'"@),
        None => None,
    }
}

/// Problem with entry `i` of one transition layout.
pub open spec fn layout_problem(spec: AffineAggregateSpec, operation: Seq<char>, layout: Seq<String>, i: int) -> Option<Seq<char>> {
    let x = layout[i]@;
    if exists|j: int| 0 <= j < i && #[trigger] layout[j]@ == x {
        Some("duplicate obligation '"@ + x + "' in declared aggregate transition '"@ + operation
            + "' for '"@ + spec.type_label@ + "'"@)
    } else if !is_owning_slot(spec, x) {
        Some("declared aggregate transition '"@ + operation + "' for '"@ + spec.type_label@
            + "' references unknown obligation '"@ + x + "'"@)
    } else {
        None
    }
}

/// First problem of one whole layout.
pub open spec fn layout_error(spec: AffineAggregateSpec, operation: Seq<char>, layout: Seq<String>) -> Option<Seq<char>> {
    first_problem(layout.len() as int, |i: int| layout_problem(spec, operation, layout, i))
}

/// Problem with transition `t`: its old layout first, then its new layout.
pub open spec fn transition_problem(spec: AffineAggregateSpec, t: int) -> Option<Seq<char>> {
    let tr = spec.transitions@[t];
    either(layout_error(spec, tr.operation@, tr.old_layout@), layout_error(spec, tr.operation@, tr.new_layout@))
}

/// Problem with retarget rule `k`: its commit helper is not a declared transition.
pub open spec fn rule_problem(spec: AffineAggregateSpec, k: int) -> Option<Seq<char>> {
    let rule = spec.retarget_rules@[k];
    if !declares_transition(spec, rule.commit_operation@) {
        Some("retarget operation '"@ + rule.operation@ + "' on transactional affine aggregate '"@
            + spec.type_label@ + "' names undeclared commit '"@ + rule.commit_operation@ + "'"@)
    } else {
        None
    }
}

/// The declaration names its type, constructor and cleanup operation.
pub open spec fn is_complete(spec: AffineAggregateSpec) -> bool {
    spec.type_label@.len() > 0 && spec.constructor@.len() > 0 && spec.cleanup_operation@.len() > 0
}

/// First problem of the cleanup order and its coverage.
pub open spec fn cleanup_error(spec: AffineAggregateSpec) -> Option<Seq<char>> {
    either(
        first_problem(spec.cleanup_order@.len() as int, |k: int| cleanup_problem(spec, k)),
        coverage_problem(spec),
    )
}

/// First problem of the transitions and retarget rules.
pub open spec fn transitions_error(spec: AffineAggregateSpec) -> Option<Seq<char>> {
    either(
        first_problem(spec.transitions@.len() as int, |t: int| transition_problem(spec, t)),
        first_problem(spec.retarget_rules@.len() as int, |k: int| rule_problem(spec, k)),
    )
}

/// The diagnostic that validation reports for a declaration, or `None` when it is valid.
///
/// Checks run in this order: completeness, slots (in order), cleanup order (in order),
/// cleanup coverage (smallest uncovered name), transitions (in order, old layout before
/// new layout), retarget rules (in order).
pub open spec fn validation_error(spec: AffineAggregateSpec) -> Option<Seq<char>> {
    if !is_complete(spec) {
        Some("transactional affine aggregate declaration is incomplete"@)
    } else {
        either(
            first_problem(spec.slots@.len() as int, |i: int| slot_problem(spec, i)),
            either(cleanup_error(spec), transitions_error(spec)),
        )
    }
}

/// Optional message of a validation result.
pub open spec fn error_message(r: Result<(), String>) -> Option<Seq<char>> {
    match r {
        Ok(_) => None,
        Err(m) => Some(m@),
    }
}

/// Unfold one step of `first_problem`.
proof fn lemma_first_problem_step(n: int, f: spec_fn(int) -> Option<Seq<char>>)
    requires
        n >= 0,
        first_problem(n, f) is None,
    ensures
        first_problem(n + 1, f) == f(n),
{
}

/// Once a problem is found among the first `k` indices, it is the first problem overall.
proof fn lemma_first_problem_stable(k: int, n: int, f: spec_fn(int) -> Option<Seq<char>>)
    requires
        0 <= k <= n,
        first_problem(k, f) is Some,
    ensures
        first_problem(n, f) == first_problem(k, f),
    decreases n - k,
{
    if n > k {
        lemma_first_problem_stable(k, n - 1, f);
    }
}

/// Is slot `i`'s name used by an earlier slot?
fn slot_name_seen_before(spec: &AffineAggregateSpec, i: usize) -> (r: bool)
    requires
        i < spec.slots@.len(),
    ensures
        r == exists|j: int| 0 <= j < i && #[trigger] spec.slots@[j].name@ == spec.slots@[i as int].name@,
{
    let mut j: usize = 0;
    while j < i
        invariant
            i < spec.slots@.len(),
            j <= i,
            forall|k: int| 0 <= k < j ==> spec.slots@[k].name@ != spec.slots@[i as int].name@,
        decreases i - j,
    {
        if str_eq(spec.slots[j].name.as_str(), spec.slots[i].name.as_str()) {
            return true;
        }
        j = j + 1;
    }
    false
}

/// Does some owning slot carry this name?
fn owning_slot_named(spec: &AffineAggregateSpec, name: &str) -> (r: bool)
    ensures
        r == is_owning_slot(*spec, name@),
{
    let mut j: usize = 0;
    while j < spec.slots.len()
        invariant
            j <= spec.slots@.len(),
            forall|k: int| 0 <= k < j ==> !(#[trigger] spec.slots@[k].name@ == name@ && spec.slots@[k].owns_obligation),
        decreases spec.slots@.len() - j,
    {
        if spec.slots[j].owns_obligation && str_eq(spec.slots[j].name.as_str(), name) {
            return true;
        }
        j = j + 1;
    }
    false
}

/// Does the cleanup order name this slot?
fn cleanup_order_names(spec: &AffineAggregateSpec, name: &str) -> (r: bool)
    ensures
        r == in_cleanup_order(*spec, name@),
{
    let mut k: usize = 0;
    while k < spec.cleanup_order.len()
        invariant
            k <= spec.cleanup_order@.len(),
            forall|j: int| 0 <= j < k ==> spec.cleanup_order@[j]@ != name@,
        decreases spec.cleanup_order@.len() - k,
    {
        if str_eq(spec.cleanup_order[k].as_str(), name) {
            return true;
        }
        k = k + 1;
    }
    false
}

/// Is an entry of a string list repeated earlier in the list?
fn seen_before(items: &Vec<String>, i: usize) -> (r: bool)
    requires
        i < items@.len(),
    ensures
        r == exists|j: int| 0 <= j < i && #[trigger] items@[j]@ == items@[i as int]@,
{
    let mut j: usize = 0;
    while j < i
        invariant
            i < items@.len(),
            j <= i,
            forall|k: int| 0 <= k < j ==> items@[k]@ != items@[i as int]@,
        decreases i - j,
    {
        if str_eq(items[j].as_str(), items[i].as_str()) {
            return true;
        }
        j = j + 1;
    }
    false
}

/// Validate the slots in declaration order.
fn validate_slots(spec: &AffineAggregateSpec) -> (r: Result<(), String>)
    ensures
        error_message(r) == first_problem(spec.slots@.len() as int, |i: int| slot_problem(*spec, i)),
{
    let ghost f = |i: int| slot_problem(*spec, i);
    let mut i: usize = 0;
    while i < spec.slots.len()
        invariant
            i <= spec.slots@.len(),
            f == (|i: int| slot_problem(*spec, i)),
            first_problem(i as int, f) is None,
        decreases spec.slots@.len() - i,
    {
        proof {
            lemma_first_problem_step(i as int, f);
        }
        let slot = &spec.slots[i];
        if slot_name_seen_before(spec, i) {
            proof {
                lemma_first_problem_stable(i + 1, spec.slots@.len() as int, f);
            }
            return Err(join5(
                "duplicate obligation slot '",
                slot.name.as_str(),
                "' in transactional affine aggregate '",
                spec.type_label.as_str(),
                "'",
            ));
        }
        if slot.owns_obligation && cleanup_operation_for_resource(slot.type_label.as_str()).is_none() {
            proof {
                lemma_first_problem_stable(i + 1, spec.slots@.len() as int, f);
            }
            return Err(join5(
                "missing cleanup registration for aggregate member '",
                slot.name.as_str(),
                "' of type '",
                slot.type_label.as_str(),
                "'",
            ));
        }
        i = i + 1;
    }
    Ok(())
}

/// Find the smallest owning slot name absent from the cleanup order.
fn least_uncovered_slot(spec: &AffineAggregateSpec) -> (r: Option<usize>)
    ensures
        r is None <==> least_uncovered(*spec) is None,
        r matches Some(b) ==> b < spec.slots@.len() && least_uncovered(*spec) == Some(spec.slots@[b as int].name@),
{
    let mut best: Option<usize> = None;
    let mut i: usize = 0;
    while i < spec.slots.len()
        invariant
            i <= spec.slots@.len(),
            best is None ==> forall|j: int| 0 <= j < i ==> !(spec.slots@[j].owns_obligation && is_uncovered(*spec, #[trigger] spec.slots@[j].name@)),
            best matches Some(b) ==> b < i && is_uncovered(*spec, spec.slots@[b as int].name@)
                && forall|j: int| 0 <= j < i && spec.slots@[j].owns_obligation && is_uncovered(*spec, #[trigger] spec.slots@[j].name@)
                    ==> !seq_less(spec.slots@[j].name@, spec.slots@[b as int].name@),
        decreases spec.slots@.len() - i,
    {
        let slot = &spec.slots[i];
        if slot.owns_obligation && !cleanup_order_names(spec, slot.name.as_str()) {
            proof {
                assert(spec.slots@[i as int].name@ == slot.name@);
                assert(is_owning_slot(*spec, slot.name@));
            }
            match best {
                None => {
                    best = Some(i);
                    proof {
                        lemma_seq_less_irreflexive(slot.name@);
                    }
                },
                Some(b) => {
                    if str_less(slot.name.as_str(), spec.slots[b].name.as_str()) {
                        proof {
                            lemma_seq_less_irreflexive(slot.name@);
                            assert forall|j: int| 0 <= j < i + 1 && spec.slots@[j].owns_obligation
                                && is_uncovered(*spec, #[trigger] spec.slots@[j].name@)
                                implies !seq_less(spec.slots@[j].name@, slot.name@) by {
                                if j < i && seq_less(spec.slots@[j].name@, slot.name@) {
                                    lemma_seq_less_transitive(spec.slots@[j].name@, slot.name@, spec.slots@[b as int].name@);
                                }
                            }
                        }
                        best = Some(i);
                    }
                },
            }
        }
        i = i + 1;
    }
    proof {
        if exists|n: Seq<char>| is_uncovered(*spec, n) {
            let n = choose|n: Seq<char>| is_uncovered(*spec, n);
            let j = choose|j: int| 0 <= j < spec.slots@.len() && #[trigger] spec.slots@[j].name@ == n && spec.slots@[j].owns_obligation;
            assert(spec.slots@[j].owns_obligation && is_uncovered(*spec, spec.slots@[j].name@));
            let b = best->0;
            let bn = spec.slots@[b as int].name@;
            assert forall|m: Seq<char>| is_uncovered(*spec, m) implies !seq_less(m, bn) by {
                let jm = choose|jm: int| 0 <= jm < spec.slots@.len() && #[trigger] spec.slots@[jm].name@ == m && spec.slots@[jm].owns_obligation;
                assert(spec.slots@[jm].owns_obligation && is_uncovered(*spec, spec.slots@[jm].name@));
            }
            let c = choose|c: Seq<char>| is_uncovered(*spec, c) && forall|m: Seq<char>| is_uncovered(*spec, m) ==> !seq_less(m, c);
            assert(!seq_less(c, bn));
            assert(!seq_less(bn, c));
            lemma_seq_less_total(c, bn);
        } else {
            if best is Some {
                let b = best->0;
                assert(is_uncovered(*spec, spec.slots@[b as int].name@));
            }
        }
    }
    best
}

/// Validate exact sealed cleanup coverage.
fn validate_cleanup_order(spec: &AffineAggregateSpec) -> (r: Result<(), String>)
    ensures
        error_message(r) == cleanup_error(*spec),
{
    let ghost f = |k: int| cleanup_problem(*spec, k);
    let mut k: usize = 0;
    while k < spec.cleanup_order.len()
        invariant
            k <= spec.cleanup_order@.len(),
            f == (|k: int| cleanup_problem(*spec, k)),
            first_problem(k as int, f) is None,
        decreases spec.cleanup_order@.len() - k,
    {
        proof {
            lemma_first_problem_step(k as int, f);
        }
        let slot_name = &spec.cleanup_order[k];
        if seen_before(&spec.cleanup_order, k) {
            proof {
                lemma_first_problem_stable(k + 1, spec.cleanup_order@.len() as int, f);
            }
            return Err(join5(
                "duplicate obligation cleanup '",
                slot_name.as_str(),
                "' in transactional affine aggregate '",
                spec.type_label.as_str(),
                "'",
            ));
        }
        if !owning_slot_named(spec, slot_name.as_str()) {
            proof {
                lemma_first_problem_stable(k + 1, spec.cleanup_order@.len() as int, f);
            }
            return Err(join5(
                "cleanup order for transactional affine aggregate '",
                spec.type_label.as_str(),
                "' names non-owning slot '",
                slot_name.as_str(),
                "'",
            ));
        }
        k = k + 1;
    }
    match least_uncovered_slot(spec) {
        Some(b) => Err(join5(
            "missing cleanup for aggregate member '",
            spec.slots[b].name.as_str(),
            "' in transactional affine aggregate '",
            spec.type_label.as_str(),
            "'",
        )),
        None => Ok(()),
    }
}

/// Validate one transition side.
fn validate_transition_layout(spec: &AffineAggregateSpec, operation: &str, layout: &Vec<String>) -> (r:
    Result<(), String>)
    ensures
        error_message(r) == layout_error(*spec, operation@, layout@),
{
    let ghost f = |i: int| layout_problem(*spec, operation@, layout@, i);
    let mut i: usize = 0;
    while i < layout.len()
        invariant
            i <= layout@.len(),
            f == (|i: int| layout_problem(*spec, operation@, layout@, i)),
            first_problem(i as int, f) is None,
        decreases layout@.len() - i,
    {
        proof {
            lemma_first_problem_step(i as int, f);
        }
        let slot_name = &layout[i];
        if seen_before(layout, i) {
            proof {
                lemma_first_problem_stable(i + 1, layout@.len() as int, f);
            }
            return Err(join7(
                "duplicate obligation '",
                slot_name.as_str(),
                "' in declared aggregate transition '",
                operation,
                "' for '",
                spec.type_label.as_str(),
                "'",
            ));
        }
        if !owning_slot_named(spec, slot_name.as_str()) {
            proof {
                lemma_first_problem_stable(i + 1, layout@.len() as int, f);
            }
            return Err(join7(
                "declared aggregate transition '",
                operation,
                "' for '",
                spec.type_label.as_str(),
                "' references unknown obligation '",
                slot_name.as_str(),
                "'",
            ));
        }
        i = i + 1;
    }
    Ok(())
}

/// Validate transition layouts and retarget rules.
fn validate_transitions(spec: &AffineAggregateSpec) -> (r: Result<(), String>)
    ensures
        error_message(r) == transitions_error(*spec),
{
    let ghost f = |t: int| transition_problem(*spec, t);
    let mut t: usize = 0;
    while t < spec.transitions.len()
        invariant
            t <= spec.transitions@.len(),
            f == (|t: int| transition_problem(*spec, t)),
            first_problem(t as int, f) is None,
        decreases spec.transitions@.len() - t,
    {
        proof {
            lemma_first_problem_step(t as int, f);
        }
        let transition = &spec.transitions[t];
        let old_result = validate_transition_layout(spec, transition.operation.as_str(), &transition.old_layout);
        if old_result.is_err() {
            proof {
                lemma_first_problem_stable(t + 1, spec.transitions@.len() as int, f);
            }
            return old_result;
        }
        let new_result = validate_transition_layout(spec, transition.operation.as_str(), &transition.new_layout);
        if new_result.is_err() {
            proof {
                lemma_first_problem_stable(t + 1, spec.transitions@.len() as int, f);
            }
            return new_result;
        }
        t = t + 1;
    }
    let ghost g = |k: int| rule_problem(*spec, k);
    let mut k: usize = 0;
    while k < spec.retarget_rules.len()
        invariant
            k <= spec.retarget_rules@.len(),
            first_problem(spec.transitions@.len() as int, f) is None,
            f == (|t: int| transition_problem(*spec, t)),
            g == (|k: int| rule_problem(*spec, k)),
            first_problem(k as int, g) is None,
        decreases spec.retarget_rules@.len() - k,
    {
        proof {
            lemma_first_problem_step(k as int, g);
        }
        let rule = &spec.retarget_rules[k];
        if !spec.has_transition_operation(rule.commit_operation.as_str()) {
            let mut msg = join5(
                "retarget operation '",
                rule.operation.as_str(),
                "' on transactional affine aggregate '",
                spec.type_label.as_str(),
                "' names undeclared commit '",
            );
            msg.append(rule.commit_operation.as_str());
            msg.append("'");
            proof {
                lemma_first_problem_stable(k + 1, spec.retarget_rules@.len() as int, g);
            }
            return Err(msg);
        }
        k = k + 1;
    }
    Ok(())
}

/// Validate one aggregate spec before registering it with a checker.
pub fn validate_affine_aggregate_spec(spec: &AffineAggregateSpec) -> (r: Result<(), String>)
    ensures
        error_message(r) == validation_error(*spec),
{
    let n1 = spec.type_label.unicode_len();
    let n2 = spec.constructor.unicode_len();
    let n3 = spec.cleanup_operation.unicode_len();
    if n1 == 0 || n2 == 0 || n3 == 0 {
        return Err(owned("transactional affine aggregate declaration is incomplete"));
    }
    let slots = validate_slots(spec);
    if slots.is_err() {
        return slots;
    }
    let cleanup = validate_cleanup_order(spec);
    if cleanup.is_err() {
        return cleanup;
    }
    validate_transitions(spec)
}

/// Name, member type and ownership of each slot.
pub open spec fn slot_triples(slots: Seq<AffineAggregateSlotSpec>) -> Seq<(Seq<char>, Seq<char>, bool)> {
    slots.map_values(|s: AffineAggregateSlotSpec| (s.name@, s.type_label@, s.owns_obligation))
}

/// Operation and layouts of each transition.
pub open spec fn transition_views(ts: Seq<AffineAggregateTransitionSpec>) -> Seq<(Seq<char>, Seq<Seq<char>>, Seq<Seq<char>>)> {
    ts.map_values(|t: AffineAggregateTransitionSpec| (t.operation@, views(t.old_layout@), views(t.new_layout@)))
}

/// Operation and commit of each retarget rule.
pub open spec fn rule_views(rs: Seq<AffineAggregateRetargetRule>) -> Seq<(Seq<char>, Seq<char>)> {
    rs.map_values(|r: AffineAggregateRetargetRule| (r.operation@, r.commit_operation@))
}

/// The four timer/registration obligations moved by every editor chord transition.
pub open spec fn editor_chord_layout() -> Seq<Seq<char>> {
    seq!["prefix_timer"@, "active_registration"@, "spare_timer"@, "spare_registration"@]
}

/// The `EditorChordRuntime` aggregate declaration.
pub open spec fn is_editor_chord_runtime_spec(r: AffineAggregateSpec) -> bool {
    &&& r.type_label@ == "EditorChordRuntime"@
    &&& r.constructor@ == "editor_chord_runtime_new"@
    &&& r.cleanup_operation@ == "editor_chord_runtime_close"@
    &&& slot_triples(r.slots@) == seq![
        ("binding_map"@, "EditorBindingMap"@, false),
        ("router"@, "TerminalChordRouter"@, true),
        ("prefix_timer"@, "MonotonicTimer"@, true),
        ("active_registration"@, "SystemOwnedWaitRegistration"@, true),
        ("spare_timer"@, "MonotonicTimer"@, true),
        ("spare_registration"@, "SystemOwnedWaitRegistration"@, true),
        ("timer_recovery_slot"@, "EditorChordTimerRecoverySlot"@, false),
        ("capacity_recovery"@, "EditorChordCapacityRecovery"@, false),
    ]
    &&& views(r.cleanup_order@) == seq![
        "router"@,
        "active_registration"@,
        "spare_registration"@,
        "spare_timer"@,
        "prefix_timer"@,
    ]
    &&& transition_views(r.transitions@) == seq![
        ("editor_chord_timer_recovery_slot_swap_pairs_after_exhaustion"@, editor_chord_layout(), editor_chord_layout()),
        ("editor_chord_timer_recovery_slot_prepare_candidate_sync"@, editor_chord_layout(), editor_chord_layout()),
        ("editor_chord_timer_recovery_slot_commit_retargeted_spare"@, editor_chord_layout(), editor_chord_layout()),
    ]
    &&& rule_views(r.retarget_rules@) == seq![
        ("system_owned_wait_registration_retarget"@, "editor_chord_timer_recovery_slot_commit_retargeted_spare"@),
    ]
    &&& views(r.transition_prefixes@) == seq!["editor_chord_timer_recovery_slot_"@]
}

/// Build the editor chord transition over its four timer/registration obligations.
fn editor_chord_transition(operation: &str) -> (r: AffineAggregateTransitionSpec)
    ensures
        r.operation@ == operation@,
        views(r.old_layout@) == editor_chord_layout(),
        views(r.new_layout@) == editor_chord_layout(),
{
    let layout = ["prefix_timer", "active_registration", "spare_timer", "spare_registration"];
    let r = AffineAggregateTransitionSpec::new(operation, &layout, &layout);
    assert(layout@.map_values(|x: &str| x@) =~= editor_chord_layout());
    r
}

/// Build the private `EditorChordRuntime` aggregate specification.
pub fn editor_chord_runtime_spec() -> (r: AffineAggregateSpec)
    ensures
        is_editor_chord_runtime_spec(r),
        validation_error(r) is None,
        registered_cleanup(r.type_label@) == Some(r.cleanup_operation@),
{
    let slots = vec![
        AffineAggregateSlotSpec::value("binding_map", "EditorBindingMap"),
        AffineAggregateSlotSpec::owning("router", "TerminalChordRouter"),
        AffineAggregateSlotSpec::owning("prefix_timer", "MonotonicTimer"),
        AffineAggregateSlotSpec::owning("active_registration", "SystemOwnedWaitRegistration"),
        AffineAggregateSlotSpec::owning("spare_timer", "MonotonicTimer"),
        AffineAggregateSlotSpec::owning("spare_registration", "SystemOwnedWaitRegistration"),
        AffineAggregateSlotSpec::value("timer_recovery_slot", "EditorChordTimerRecoverySlot"),
        AffineAggregateSlotSpec::value("capacity_recovery", "EditorChordCapacityRecovery"),
    ];
    let cleanup_order = vec![
        owned("router"),
        owned("active_registration"),
        owned("spare_registration"),
        owned("spare_timer"),
        owned("prefix_timer"),
    ];
    let transitions = vec![
        editor_chord_transition("editor_chord_timer_recovery_slot_swap_pairs_after_exhaustion"),
        editor_chord_transition("editor_chord_timer_recovery_slot_prepare_candidate_sync"),
        editor_chord_transition("editor_chord_timer_recovery_slot_commit_retargeted_spare"),
    ];
    let retarget_rules = vec![
        AffineAggregateRetargetRule::new(
            "system_owned_wait_registration_retarget",
            "editor_chord_timer_recovery_slot_commit_retargeted_spare",
        ),
    ];
    let transition_prefixes = vec![owned("editor_chord_timer_recovery_slot_")];
    let r = AffineAggregateSpec {
        type_label: owned("EditorChordRuntime"),
        constructor: owned("editor_chord_runtime_new"),
        cleanup_operation: owned("editor_chord_runtime_close"),
        slots,
        cleanup_order,
        transitions,
        retarget_rules,
        transition_prefixes,
    };
    assert(slot_triples(r.slots@) =~= seq![
        ("binding_map"@, "EditorBindingMap"@, false),
        ("router"@, "TerminalChordRouter"@, true),
        ("prefix_timer"@, "MonotonicTimer"@, true),
        ("active_registration"@, "SystemOwnedWaitRegistration"@, true),
        ("spare_timer"@, "MonotonicTimer"@, true),
        ("spare_registration"@, "SystemOwnedWaitRegistration"@, true),
        ("timer_recovery_slot"@, "EditorChordTimerRecoverySlot"@, false),
        ("capacity_recovery"@, "EditorChordCapacityRecovery"@, false),
    ]);
    assert(views(r.cleanup_order@) =~= seq![
        "router"@,
        "active_registration"@,
        "spare_registration"@,
        "spare_timer"@,
        "prefix_timer"@,
    ]);
    assert(transition_views(r.transitions@) =~= seq![
        ("editor_chord_timer_recovery_slot_swap_pairs_after_exhaustion"@, editor_chord_layout(), editor_chord_layout()),
        ("editor_chord_timer_recovery_slot_prepare_candidate_sync"@, editor_chord_layout(), editor_chord_layout()),
        ("editor_chord_timer_recovery_slot_commit_retargeted_spare"@, editor_chord_layout(), editor_chord_layout()),
    ]);
    assert(rule_views(r.retarget_rules@) =~= seq![
        ("system_owned_wait_registration_retarget"@, "editor_chord_timer_recovery_slot_commit_retargeted_spare"@),
    ]);
    assert(views(r.transition_prefixes@) =~= seq!["editor_chord_timer_recovery_slot_"@]);
    proof {
        law_editor_chord_runtime_spec_is_valid(r);
    }
    r
}

/// The focused compiler test aggregate declaration.
pub open spec fn is_terminal_aggregate_fixture_spec(r: AffineAggregateSpec) -> bool {
    &&& r.type_label@ == "TerminalAggregateFixture"@
    &&& r.constructor@ == "terminal_aggregate_fixture_new"@
    &&& r.cleanup_operation@ == "terminal_aggregate_fixture_close"@
    &&& slot_triples(r.slots@) == seq![
        ("first"@, "TerminalAggregateMember"@, true),
        ("second"@, "TerminalAggregateMember"@, true),
    ]
    &&& views(r.cleanup_order@) == seq!["second"@, "first"@]
    &&& transition_views(r.transitions@) == seq![
        ("terminal_aggregate_commit_candidate"@, seq!["first"@, "second"@], seq!["first"@, "second"@]),
    ]
    &&& rule_views(r.retarget_rules@) == seq![
        ("terminal_aggregate_retarget_member"@, "terminal_aggregate_commit_candidate"@),
    ]
    &&& views(r.transition_prefixes@) == seq!["terminal_aggregate_"@]
}

/// Build the focused compiler test aggregate specification.
pub fn terminal_aggregate_fixture_spec() -> (r: AffineAggregateSpec)
    ensures
        is_terminal_aggregate_fixture_spec(r),
{
    let layout = ["first", "second"];
    let transition = AffineAggregateTransitionSpec::new("terminal_aggregate_commit_candidate", &layout, &layout);
    assert(layout@.map_values(|x: &str| x@) =~= seq!["first"@, "second"@]);
    let r = AffineAggregateSpec {
        type_label: owned("TerminalAggregateFixture"),
        constructor: owned("terminal_aggregate_fixture_new"),
        cleanup_operation: owned("terminal_aggregate_fixture_close"),
        slots: vec![
            AffineAggregateSlotSpec::owning("first", "TerminalAggregateMember"),
            AffineAggregateSlotSpec::owning("second", "TerminalAggregateMember"),
        ],
        cleanup_order: vec![owned("second"), owned("first")],
        transitions: vec![transition],
        retarget_rules: vec![
            AffineAggregateRetargetRule::new(
                "terminal_aggregate_retarget_member",
                "terminal_aggregate_commit_candidate",
            ),
        ],
        transition_prefixes: vec![owned("terminal_aggregate_")],
    };
    assert(slot_triples(r.slots@) =~= seq![
        ("first"@, "TerminalAggregateMember"@, true),
        ("second"@, "TerminalAggregateMember"@, true),
    ]);
    assert(views(r.cleanup_order@) =~= seq!["second"@, "first"@]);
    assert(transition_views(r.transitions@) =~= seq![
        ("terminal_aggregate_commit_candidate"@, seq!["first"@, "second"@], seq!["first"@, "second"@]),
    ]);
    assert(rule_views(r.retarget_rules@) =~= seq![
        ("terminal_aggregate_retarget_member"@, "terminal_aggregate_commit_candidate"@),
    ]);
    assert(views(r.transition_prefixes@) =~= seq!["terminal_aggregate_"@]);
    r
}

/// Return all built-in aggregate specs enabled by the terminal proposal gate.
pub fn terminal_affine_aggregate_specs() -> (r: Vec<AffineAggregateSpec>)
    ensures
        r@.len() == 1,
        is_editor_chord_runtime_spec(r@[0]),
        forall|i: int|
            0 <= i < r@.len() ==> validation_error(#[trigger] r@[i]) is None && registered_cleanup(r@[i].type_label@)
                == Some(r@[i].cleanup_operation@),
{
    let r = vec![editor_chord_runtime_spec()];
    proof {
        law_editor_chord_runtime_spec_is_valid(r@[0]);
    }
    r
}

/// Build a nominal core type for synthetic aggregate tests and proposal gates.
pub fn nominal_type(name: &str) -> (r: CoreType)
    ensures
        model_of(r) == (TypeModel::Generic { name: name@, type_args: Seq::empty() }),
{
    let type_args: Vec<CoreType> = Vec::new();
    proof {
        crate::types::lemma_models_of(type_args@);
        assert(crate::types::models_of(type_args@) =~= Seq::<TypeModel>::empty());
    }
    CoreType::Generic { name: owned(name), type_args }
}


/// The editor chord slot names differ pairwise.
proof fn lemma_editor_chord_names_distinct(r: AffineAggregateSpec)
    requires
        is_editor_chord_runtime_spec(r),
    ensures
        r.slots@.len() == 8,
        forall|i: int, j: int| 0 <= j < i < 8 ==> r.slots@[j].name@ != r.slots@[i].name@,
        r.slots@[0].name@ == "binding_map"@ && r.slots@[0].type_label@ == "EditorBindingMap"@ && r.slots@[0].owns_obligation == false,
        r.slots@[1].name@ == "router"@ && r.slots@[1].type_label@ == "TerminalChordRouter"@ && r.slots@[1].owns_obligation == true,
        r.slots@[2].name@ == "prefix_timer"@ && r.slots@[2].type_label@ == "MonotonicTimer"@ && r.slots@[2].owns_obligation == true,
        r.slots@[3].name@ == "active_registration"@ && r.slots@[3].type_label@ == "SystemOwnedWaitRegistration"@ && r.slots@[3].owns_obligation == true,
        r.slots@[4].name@ == "spare_timer"@ && r.slots@[4].type_label@ == "MonotonicTimer"@ && r.slots@[4].owns_obligation == true,
        r.slots@[5].name@ == "spare_registration"@ && r.slots@[5].type_label@ == "SystemOwnedWaitRegistration"@ && r.slots@[5].owns_obligation == true,
        r.slots@[6].name@ == "timer_recovery_slot"@ && r.slots@[6].type_label@ == "EditorChordTimerRecoverySlot"@ && r.slots@[6].owns_obligation == false,
        r.slots@[7].name@ == "capacity_recovery"@ && r.slots@[7].type_label@ == "EditorChordCapacityRecovery"@ && r.slots@[7].owns_obligation == false,
{
    reveal_strlit("active_registration");
    reveal_strlit("binding_map");
    reveal_strlit("capacity_recovery");
    reveal_strlit("prefix_timer");
    reveal_strlit("router");
    reveal_strlit("spare_registration");
    reveal_strlit("spare_timer");
    reveal_strlit("timer_recovery_slot");
    let t = slot_triples(r.slots@);
    assert(t.len() == 8);
    assert(t[0] == ("binding_map"@, "EditorBindingMap"@, false));
    assert(t[1] == ("router"@, "TerminalChordRouter"@, true));
    assert(t[2] == ("prefix_timer"@, "MonotonicTimer"@, true));
    assert(t[3] == ("active_registration"@, "SystemOwnedWaitRegistration"@, true));
    assert(t[4] == ("spare_timer"@, "MonotonicTimer"@, true));
    assert(t[5] == ("spare_registration"@, "SystemOwnedWaitRegistration"@, true));
    assert(t[6] == ("timer_recovery_slot"@, "EditorChordTimerRecoverySlot"@, false));
    assert(t[7] == ("capacity_recovery"@, "EditorChordCapacityRecovery"@, false));
    assert forall|i: int, j: int| 0 <= j < i < 8 implies r.slots@[j].name@ != r.slots@[i].name@ by {
        assert(t[i].0 == r.slots@[i].name@ && t[j].0 == r.slots@[j].name@);
        if i == 1 && j == 0 {
            assert("binding_map"@ != "router"@);
        } else if i == 2 && j == 0 {
            assert("binding_map"@ != "prefix_timer"@);
        } else if i == 2 && j == 1 {
            assert("router"@ != "prefix_timer"@);
        } else if i == 3 && j == 0 {
            assert("binding_map"@ != "active_registration"@);
        } else if i == 3 && j == 1 {
            assert("router"@ != "active_registration"@);
        } else if i == 3 && j == 2 {
            assert("prefix_timer"@ != "active_registration"@);
        } else if i == 4 && j == 0 {
            assert("binding_map"@[0] != "spare_timer"@[0]);
            assert("binding_map"@ != "spare_timer"@);
        } else if i == 4 && j == 1 {
            assert("router"@ != "spare_timer"@);
        } else if i == 4 && j == 2 {
            assert("prefix_timer"@ != "spare_timer"@);
        } else if i == 4 && j == 3 {
            assert("active_registration"@ != "spare_timer"@);
        } else if i == 5 && j == 0 {
            assert("binding_map"@ != "spare_registration"@);
        } else if i == 5 && j == 1 {
            assert("router"@ != "spare_registration"@);
        } else if i == 5 && j == 2 {
            assert("prefix_timer"@ != "spare_registration"@);
        } else if i == 5 && j == 3 {
            assert("active_registration"@ != "spare_registration"@);
        } else if i == 5 && j == 4 {
            assert("spare_timer"@ != "spare_registration"@);
        } else if i == 6 && j == 0 {
            assert("binding_map"@ != "timer_recovery_slot"@);
        } else if i == 6 && j == 1 {
            assert("router"@ != "timer_recovery_slot"@);
        } else if i == 6 && j == 2 {
            assert("prefix_timer"@ != "timer_recovery_slot"@);
        } else if i == 6 && j == 3 {
            assert("active_registration"@[0] != "timer_recovery_slot"@[0]);
            assert("active_registration"@ != "timer_recovery_slot"@);
        } else if i == 6 && j == 4 {
            assert("spare_timer"@ != "timer_recovery_slot"@);
        } else if i == 6 && j == 5 {
            assert("spare_registration"@ != "timer_recovery_slot"@);
        } else if i == 7 && j == 0 {
            assert("binding_map"@ != "capacity_recovery"@);
        } else if i == 7 && j == 1 {
            assert("router"@ != "capacity_recovery"@);
        } else if i == 7 && j == 2 {
            assert("prefix_timer"@ != "capacity_recovery"@);
        } else if i == 7 && j == 3 {
            assert("active_registration"@ != "capacity_recovery"@);
        } else if i == 7 && j == 4 {
            assert("spare_timer"@ != "capacity_recovery"@);
        } else if i == 7 && j == 5 {
            assert("spare_registration"@ != "capacity_recovery"@);
        } else if i == 7 && j == 6 {
            assert("timer_recovery_slot"@ != "capacity_recovery"@);
        }
    }
}

/// The editor chord declaration is complete, its slots are valid, and its owner type's
/// cleanup registration is its cleanup operation.
proof fn lemma_editor_chord_slots_valid(r: AffineAggregateSpec)
    requires
        is_editor_chord_runtime_spec(r),
    ensures
        is_complete(r),
        r.slots@.len() == 8,
        forall|i: int| 0 <= i < 8 ==> #[trigger] slot_problem(r, i) is None,
        registered_cleanup(r.type_label@) == Some(r.cleanup_operation@),
{
    lemma_editor_chord_names_distinct(r);
    reveal_strlit("CancellationSource");
    reveal_strlit("EditorChordRuntime");
    reveal_strlit("MonotonicTimer");
    reveal_strlit("ProcessControlSource");
    reveal_strlit("SystemOwnedWaitRegistration");
    reveal_strlit("SystemWaitSet");
    reveal_strlit("TerminalChordRouter");
    reveal_strlit("TerminalSession");
    reveal_strlit("editor_chord_runtime_close");
    reveal_strlit("editor_chord_runtime_new");
    assert(is_complete(r));
    assert("EditorChordRuntime"@[0] != "CancellationSource"@[0]);
    assert(registered_cleanup("EditorChordRuntime"@) == Some("editor_chord_runtime_close"@));
    assert forall|i: int| 0 <= i < 8 implies #[trigger] slot_problem(r, i) is None by {
        assert(!exists|j: int| 0 <= j < i && #[trigger] r.slots@[j].name@ == r.slots@[i].name@);
    }
}

/// The editor chord cleanup order is valid and covers every owning slot.
proof fn lemma_editor_chord_cleanup_valid(r: AffineAggregateSpec)
    requires
        is_editor_chord_runtime_spec(r),
    ensures
        r.cleanup_order@.len() == 5,
        forall|k: int| 0 <= k < 5 ==> #[trigger] cleanup_problem(r, k) is None,
        least_uncovered(r) is None,
{
    lemma_editor_chord_names_distinct(r);
    reveal_strlit("active_registration");
    reveal_strlit("prefix_timer");
    reveal_strlit("router");
    reveal_strlit("spare_registration");
    reveal_strlit("spare_timer");
    let c = views(r.cleanup_order@);
    assert(c.len() == 5);
    assert(c[0] == "router"@ && r.cleanup_order@[0]@ == c[0]);
    assert(c[1] == "active_registration"@ && r.cleanup_order@[1]@ == c[1]);
    assert(c[2] == "spare_registration"@ && r.cleanup_order@[2]@ == c[2]);
    assert(c[3] == "spare_timer"@ && r.cleanup_order@[3]@ == c[3]);
    assert(c[4] == "prefix_timer"@ && r.cleanup_order@[4]@ == c[4]);
    assert forall|k: int| 0 <= k < 5 implies #[trigger] cleanup_problem(r, k) is None by {
        assert forall|j: int| 0 <= j < k implies #[trigger] r.cleanup_order@[j]@ != r.cleanup_order@[k]@ by {
            if k == 1 && j == 0 {
                assert("router"@ != "active_registration"@);
            } else if k == 2 && j == 0 {
                assert("router"@ != "spare_registration"@);
            } else if k == 2 && j == 1 {
                assert("active_registration"@ != "spare_registration"@);
            } else if k == 3 && j == 0 {
                assert("router"@ != "spare_timer"@);
            } else if k == 3 && j == 1 {
                assert("active_registration"@ != "spare_timer"@);
            } else if k == 3 && j == 2 {
                assert("spare_registration"@ != "spare_timer"@);
            } else if k == 4 && j == 0 {
                assert("router"@ != "prefix_timer"@);
            } else if k == 4 && j == 1 {
                assert("active_registration"@ != "prefix_timer"@);
            } else if k == 4 && j == 2 {
                assert("spare_registration"@ != "prefix_timer"@);
            } else if k == 4 && j == 3 {
                assert("spare_timer"@ != "prefix_timer"@);
            }
        }
        if k == 0 {
            assert(r.slots@[1].name@ == r.cleanup_order@[k]@);
        }
        if k == 1 {
            assert(r.slots@[3].name@ == r.cleanup_order@[k]@);
        }
        if k == 2 {
            assert(r.slots@[5].name@ == r.cleanup_order@[k]@);
        }
        if k == 3 {
            assert(r.slots@[4].name@ == r.cleanup_order@[k]@);
        }
        if k == 4 {
            assert(r.slots@[2].name@ == r.cleanup_order@[k]@);
        }
    }
    assert forall|n: Seq<char>| !is_uncovered(r, n) by {
        if is_owning_slot(r, n) {
            let j = choose|j: int| 0 <= j < r.slots@.len() && #[trigger] r.slots@[j].name@ == n && r.slots@[j].owns_obligation;
            if j == 1 {
                assert(r.cleanup_order@[0]@ == n);
            }
            if j == 2 {
                assert(r.cleanup_order@[4]@ == n);
            }
            if j == 3 {
                assert(r.cleanup_order@[1]@ == n);
            }
            if j == 4 {
                assert(r.cleanup_order@[3]@ == n);
            }
            if j == 5 {
                assert(r.cleanup_order@[2]@ == n);
            }
        }
    }
    assert(least_uncovered(r) is None);
}

/// The editor chord transitions have valid layouts.
proof fn lemma_editor_chord_transitions_valid(r: AffineAggregateSpec)
    requires
        is_editor_chord_runtime_spec(r),
    ensures
        r.transitions@.len() == 3,
        forall|t: int| 0 <= t < 3 ==> #[trigger] transition_problem(r, t) is None,
{
    reveal_strlit("active_registration");
    reveal_strlit("editor_chord_timer_recovery_slot_commit_retargeted_spare");
    reveal_strlit("editor_chord_timer_recovery_slot_prepare_candidate_sync");
    reveal_strlit("editor_chord_timer_recovery_slot_swap_pairs_after_exhaustion");
    reveal_strlit("prefix_timer");
    reveal_strlit("spare_registration");
    reveal_strlit("spare_timer");
    let tv = transition_views(r.transitions@);
    assert(tv.len() == 3);
    assert forall|t: int| 0 <= t < 3 implies #[trigger] transition_problem(r, t) is None by {
        let tr = r.transitions@[t];
        assert(tv[t].1 == views(tr.old_layout@) && tv[t].2 == views(tr.new_layout@));
        assert(views(tr.old_layout@) == editor_chord_layout() && views(tr.new_layout@) == editor_chord_layout());
        lemma_editor_chord_layout_valid(r, tr.operation@, tr.old_layout@);
        lemma_editor_chord_layout_valid(r, tr.operation@, tr.new_layout@);
    }
}

/// The editor chord retarget rule names a declared, reserved commit helper.
proof fn lemma_editor_chord_rule_valid(r: AffineAggregateSpec)
    requires
        is_editor_chord_runtime_spec(r),
    ensures
        r.retarget_rules@.len() == 1,
        rule_problem(r, 0) is None,
        first_rule_index(r, "system_owned_wait_registration_retarget"@) == Some(0int),
        declares_transition(r, r.retarget_rules@[0].commit_operation@),
        reserved_transition_name(r, r.retarget_rules@[0].commit_operation@),
{
    reveal_strlit("editor_chord_timer_recovery_slot_commit_retargeted_spare");
    let tv = transition_views(r.transitions@);
    assert(tv.len() == 3);
    reveal_strlit("system_owned_wait_registration_retarget");
    let rv = rule_views(r.retarget_rules@);
    assert(rv.len() == 1);
    assert(rv[0] == (r.retarget_rules@[0].operation@, r.retarget_rules@[0].commit_operation@));
    let commit = r.retarget_rules@[0].commit_operation@;
    assert(commit == "editor_chord_timer_recovery_slot_commit_retargeted_spare"@);
    assert(tv[2].0 == r.transitions@[2].operation@);
    assert(r.transitions@[2].operation@ == commit);
    assert(declares_transition(r, commit));
    assert forall|k: int| 0 <= k < 1 implies #[trigger] rule_problem(r, k) is None by {}
    assert(first_rule_index(r, "system_owned_wait_registration_retarget"@) == Some(0int)) by {
        assert(r.retarget_rules@[0].operation@ == "system_owned_wait_registration_retarget"@);
    }
    reveal_strlit("editor_chord_timer_recovery_slot_");
    reveal_strlit("commit");
    let pv = views(r.transition_prefixes@);
    assert(pv.len() == r.transition_prefixes@.len());
    assert(pv.len() == 1 && pv[0] == r.transition_prefixes@[0]@);
    assert(commit.subrange(0, 33) =~= r.transition_prefixes@[0]@);
    assert(has_prefix(commit, r.transition_prefixes@[0]@));
    assert(commit.subrange(33, 39) =~= "commit"@);
    assert(occurs_at(commit, "commit"@, 33));
}

/// The built-in editor chord aggregate declaration passes validation, its owner type
/// has a cleanup registration that is its declared cleanup operation, and its one
/// retarget rule names a declared commit helper reserved for transitions.
pub proof fn law_editor_chord_runtime_spec_is_valid(r: AffineAggregateSpec)
    requires
        is_editor_chord_runtime_spec(r),
    ensures
        validation_error(r) is None,
        registered_cleanup(r.type_label@) == Some(r.cleanup_operation@),
        r.retarget_rules@.len() == 1,
        first_rule_index(r, "system_owned_wait_registration_retarget"@) == Some(0int),
        declares_transition(r, r.retarget_rules@[0].commit_operation@),
        reserved_transition_name(r, r.retarget_rules@[0].commit_operation@),
{
    lemma_editor_chord_slots_valid(r);
    lemma_editor_chord_cleanup_valid(r);
    lemma_editor_chord_transitions_valid(r);
    lemma_editor_chord_rule_valid(r);
    assert(cleanup_error(r) is None) by {
        reveal_with_fuel(first_problem, 6);
    }
    assert(transitions_error(r) is None) by {
        reveal_with_fuel(first_problem, 4);
    }
    assert(first_problem(r.slots@.len() as int, |i: int| slot_problem(r, i)) is None) by {
        reveal_with_fuel(first_problem, 9);
    }
}

/// The editor chord layout is a valid layout of its transitions.
proof fn lemma_editor_chord_layout_valid(r: AffineAggregateSpec, operation: Seq<char>, layout: Seq<String>)
    requires
        is_editor_chord_runtime_spec(r),
        views(layout) == editor_chord_layout(),
    ensures
        layout_error(r, operation, layout) is None,
{
    lemma_editor_chord_names_distinct(r);
    reveal_strlit("active_registration");
    reveal_strlit("prefix_timer");
    reveal_strlit("spare_registration");
    reveal_strlit("spare_timer");
    assert(editor_chord_layout().len() == 4);
    assert(views(layout).len() == layout.len());
    assert(layout.len() == 4);
    assert(layout[0]@ == views(layout)[0]);
    assert(layout[1]@ == views(layout)[1]);
    assert(layout[2]@ == views(layout)[2]);
    assert(layout[3]@ == views(layout)[3]);
    assert forall|i: int| 0 <= i < 4 implies #[trigger] layout_problem(r, operation, layout, i) is None by {
        assert forall|j: int| 0 <= j < i implies #[trigger] layout[j]@ != layout[i]@ by {
            if i == 1 && j == 0 {
                assert("prefix_timer"@ != "active_registration"@);
            } else if i == 2 && j == 0 {
                assert("prefix_timer"@ != "spare_timer"@);
            } else if i == 2 && j == 1 {
                assert("active_registration"@ != "spare_timer"@);
            } else if i == 3 && j == 0 {
                assert("prefix_timer"@ != "spare_registration"@);
            } else if i == 3 && j == 1 {
                assert("active_registration"@ != "spare_registration"@);
            } else if i == 3 && j == 2 {
                assert("spare_timer"@ != "spare_registration"@);
            }
        }
        if i == 0 {
            assert(r.slots@[2].name@ == layout[i]@);
        }
        if i == 1 {
            assert(r.slots@[3].name@ == layout[i]@);
        }
        if i == 2 {
            assert(r.slots@[4].name@ == layout[i]@);
        }
        if i == 3 {
            assert(r.slots@[5].name@ == layout[i]@);
        }
    }
    reveal_with_fuel(first_problem, 5);
}

} // verus!
