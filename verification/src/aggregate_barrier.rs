//! The retarget/commit barrier of transactional affine aggregates: after a successful
//! fallible retarget of an aggregate member, the next statement must be the matching
//! commit on the same aggregate root.

use vstd::prelude::*;
use crate::affine_aggregates::{
    declares_transition, first_rule_index, nominal_type, reserved_transition_name,
    validation_error, validate_affine_aggregate_spec, AffineAggregateRetargetRule, AffineAggregateSpec,
};
use crate::ast::{BorrowKind, Expr, Stmt};
use crate::errors::{is_constraint_error, TypeError};
use crate::name_map::NameMap;
use crate::text::{join5, join7, owned, str_eq};
use crate::token::Span;
use crate::types::{model_of, CoreType, TypeModel};

verus! {

/// The call a statement makes directly: an expression statement that is a call or a
/// propagated call, or a `let` initialized by a propagated call.
pub open spec fn stmt_call(s: Stmt) -> Option<Expr> {
    match s {
        Stmt::Expression { expr, .. } => match expr {
            Expr::Call { .. } => Some(expr),
            Expr::Propagate { call, .. } => Some(*call),
            _ => None,
        },
        Stmt::Let { initializer, .. } => match initializer {
            Some(Expr::Propagate { call, .. }) => Some(*call),
            _ => None,
        },
        _ => None,
    }
}

/// Name of the operation a call invokes, when the callee is a plain identifier.
pub open spec fn call_operation(call: Expr) -> Option<Seq<char>> {
    match call {
        Expr::Call { callee, .. } => match *callee {
            Expr::Identifier { name, .. } => Some(name@),
            _ => None,
        },
        _ => None,
    }
}

/// Arguments of a call.
pub open spec fn call_arguments(call: Expr) -> Option<Seq<Expr>> {
    match call {
        Expr::Call { args, .. } => Some(args@),
        _ => None,
    }
}

/// Root binding of an identifier, member chain, borrow, parenthesized or cast expression.
pub open spec fn root_name(e: Expr) -> Option<Seq<char>>
    decreases e,
{
    match e {
        Expr::Identifier { name, .. } => Some(name@),
        Expr::Member { object, .. } => root_name(*object),
        Expr::BorrowArgument { target, .. } => root_name(*target),
        Expr::Parenthesized { expr, .. } => root_name(*expr),
        Expr::Cast { expr, .. } => root_name(*expr),
        _ => None,
    }
}

/// Root binding of an explicit `mutable ref` argument, seen through parentheses and casts.
pub open spec fn mutable_root(e: Expr) -> Option<Seq<char>>
    decreases e,
{
    match e {
        Expr::BorrowArgument { target, borrow_kind: BorrowKind::MutableRef, .. } => root_name(*target),
        Expr::Parenthesized { expr, .. } => mutable_root(*expr),
        Expr::Cast { expr, .. } => mutable_root(*expr),
        _ => None,
    }
}

/// Root binding of a call's first argument, when that argument is a `mutable ref`.
pub open spec fn first_mutable_root(call: Expr) -> Option<Seq<char>> {
    match call_arguments(call) {
        Some(args) => if args.len() > 0 { mutable_root(args[0]) } else { None },
        None => None,
    }
}

/// Span of the statement's call when it invokes `operation` with a first `mutable ref`
/// argument rooted at `root`.
pub open spec fn matching_commit(s: Stmt, operation: Seq<char>, root: Seq<char>) -> Option<Span> {
    match stmt_call(s) {
        Some(c) => if call_operation(c) == Some(operation) && first_mutable_root(c) == Some(root) {
            Some(c.span_of())
        } else {
            None
        },
        None => None,
    }
}

/// Operation, call span and aggregate root of a statement's call whose first argument
/// is a `mutable ref`.
pub open spec fn rooted_call(s: Stmt) -> Option<(Seq<char>, Span, Seq<char>)> {
    match stmt_call(s) {
        Some(c) => match (call_operation(c), first_mutable_root(c)) {
            (Some(op), Some(root)) => Some((op, c.span_of(), root)),
            _ => None,
        },
        None => None,
    }
}

/// Return the call expression represented by a statement.
pub fn statement_call(statement: &Stmt) -> (r: Option<&Expr>)
    ensures
        r is None <==> stmt_call(*statement) is None,
        r matches Some(e) ==> stmt_call(*statement) == Some(*e),
{
    match statement {
        Stmt::Expression { expr, .. } => match expr {
            Expr::Call { .. } => Some(expr),
            Expr::Propagate { call, .. } => Some(&**call),
            _ => None,
        },
        Stmt::Let { initializer, .. } => match initializer {
            Some(Expr::Propagate { call, .. }) => Some(&**call),
            _ => None,
        },
        _ => None,
    }
}

/// Return the identifier operation name for a call expression.
pub fn call_operation_name(call: &Expr) -> (r: Option<&str>)
    ensures
        r is None <==> call_operation(*call) is None,
        r matches Some(n) ==> call_operation(*call) == Some(n@),
{
    match call {
        Expr::Call { callee, .. } => match &**callee {
            Expr::Identifier { name, .. } => Some(name.as_str()),
            _ => None,
        },
        _ => None,
    }
}

/// Return call arguments for a call expression.
pub fn call_args(call: &Expr) -> (r: Option<&[Expr]>)
    ensures
        r is None <==> call_arguments(*call) is None,
        r matches Some(a) ==> call_arguments(*call) == Some(a@),
{
    match call {
        Expr::Call { args, .. } => Some(args.as_slice()),
        _ => None,
    }
}

/// Return the root identifier for identifiers, member chains, and borrow wrappers.
pub fn root_identifier(expr: &Expr) -> (r: Option<String>)
    ensures
        r is None <==> root_name(*expr) is None,
        r matches Some(n) ==> root_name(*expr) == Some(n@),
    decreases expr,
{
    match root_identifier_ref(expr) {
        Some(name) => Some(owned(name)),
        None => None,
    }
}

/// Borrowed variant of `root_identifier` for exact root comparisons.
pub fn root_identifier_ref(expr: &Expr) -> (r: Option<&str>)
    ensures
        r is None <==> root_name(*expr) is None,
        r matches Some(n) ==> root_name(*expr) == Some(n@),
    decreases expr,
{
    match expr {
        Expr::Identifier { name, .. } => Some(name.as_str()),
        Expr::Member { object, .. } => root_identifier_ref(&**object),
        Expr::BorrowArgument { target, .. } => root_identifier_ref(&**target),
        Expr::Parenthesized { expr, .. } => root_identifier_ref(&**expr),
        Expr::Cast { expr, .. } => root_identifier_ref(&**expr),
        _ => None,
    }
}

/// Return the root identifier only for explicit `mutable ref` aggregate arguments.
pub fn mutable_root_identifier(expr: &Expr) -> (r: Option<&str>)
    ensures
        r is None <==> mutable_root(*expr) is None,
        r matches Some(n) ==> mutable_root(*expr) == Some(n@),
    decreases expr,
{
    match expr {
        Expr::BorrowArgument { target, borrow_kind: BorrowKind::MutableRef, .. } => root_identifier_ref(&**target),
        Expr::Parenthesized { expr, .. } => mutable_root_identifier(&**expr),
        Expr::Cast { expr, .. } => mutable_root_identifier(&**expr),
        _ => None,
    }
}

/// Root of a call's first argument when it is a `mutable ref`.
fn first_argument_mutable_root(call: &Expr) -> (r: Option<&str>)
    ensures
        r is None <==> first_mutable_root(*call) is None,
        r matches Some(n) ==> first_mutable_root(*call) == Some(n@),
{
    match call_args(call) {
        Some(args) => {
            if args.len() > 0 {
                mutable_root_identifier(&args[0])
            } else {
                None
            }
        },
        None => None,
    }
}

/// Return whether a statement directly calls `operation`.
pub fn statement_calls_operation(statement: &Stmt, operation: &str) -> (r: bool)
    ensures
        r == (match stmt_call(*statement) {
            Some(c) => call_operation(c) == Some(operation@),
            None => false,
        }),
{
    match statement_call(statement) {
        Some(call) => match call_operation_name(call) {
            Some(found) => str_eq(found, operation),
            None => false,
        },
        None => false,
    }
}

/// Return the commit call span only when its first argument mutably borrows the expected root.
pub fn matching_commit_call_from_statement(statement: &Stmt, operation: &str, aggregate_root: &str) -> (r: Option<Span>)
    ensures
        r == matching_commit(*statement, operation@, aggregate_root@),
{
    let call = match statement_call(statement) {
        Some(c) => c,
        None => return None,
    };
    match call_operation_name(call) {
        Some(name) => {
            if !str_eq(name, operation) {
                return None;
            }
        },
        None => return None,
    }
    match first_argument_mutable_root(call) {
        Some(root) => {
            if str_eq(root, aggregate_root) {
                Some(call.span())
            } else {
                None
            }
        },
        None => None,
    }
}

/// Extract a transition helper call rooted in its first mutable aggregate argument.
pub fn transition_call_from_statement(statement: &Stmt) -> (r: Option<(String, Span, String)>)
    ensures
        r is None <==> rooted_call(*statement) is None,
        r matches Some((op, span, root)) ==> rooted_call(*statement) == Some((op@, span, root@)),
{
    let call = match statement_call(statement) {
        Some(c) => c,
        None => return None,
    };
    let operation = match call_operation_name(call) {
        Some(name) => owned(name),
        None => return None,
    };
    match first_argument_mutable_root(call) {
        Some(root) => Some((operation, call.span(), owned(root))),
        None => None,
    }
}

/// Field types by name, each a nominal type; a later entry replaces an earlier one.
pub open spec fn field_map_model(entries: Seq<(&str, &str)>) -> Map<Seq<char>, TypeModel>
    decreases entries.len(),
{
    if entries.len() == 0 {
        Map::empty()
    } else {
        field_map_model(entries.drop_last()).insert(
            entries.last().0@,
            TypeModel::Generic { name: entries.last().1@, type_args: Seq::empty() },
        )
    }
}

/// Build a small field map from nominal type names.
pub fn field_map(entries: &[(&str, &str)]) -> (r: NameMap<CoreType>)
    ensures
        r.wf(),
        r@.map_values(|t: CoreType| model_of(t)) == field_map_model(entries@),
{
    let mut out: NameMap<CoreType> = NameMap::new();
    let mut i: usize = 0;
    proof {
        assert(entries@.take(0) =~= Seq::<(&str, &str)>::empty());
        assert(out@.map_values(|t: CoreType| model_of(t)) =~= Map::<Seq<char>, TypeModel>::empty());
    }
    while i < entries.len()
        invariant
            i <= entries@.len(),
            out.wf(),
            out@.map_values(|t: CoreType| model_of(t)) == field_map_model(entries@.take(i as int)),
        decreases entries@.len() - i,
    {
        let ghost before = out@;
        let (field, type_label) = entries[i];
        out.insert(owned(field), nominal_type(type_label));
        proof {
            assert(entries@.take(i + 1).drop_last() =~= entries@.take(i as int));
            assert(out@.map_values(|t: CoreType| model_of(t)) =~= before.map_values(|t: CoreType| model_of(t)).insert(
                field@,
                TypeModel::Generic { name: type_label@, type_args: Seq::empty() },
            ));
        }
        i = i + 1;
    }
    proof {
        assert(entries@.take(entries@.len() as int) =~= entries@);
    }
    out
}

/// Build a compact affine aggregate diagnostic.
pub fn aggregate_error(reason: String, span: Span) -> (r: TypeError)
    ensures
        is_constraint_error(r, reason@, span),
{
    TypeError::ConstraintSolvingFailed { reason, span: TypeError::span_from_span(span) }
}

/// A successful fallible retarget that must be followed by an infallible commit.
#[derive(Debug)]
pub struct PendingAggregateCommit {
    /// Aggregate root binding whose same-owner layout is awaiting commit.
    pub aggregate_root: String,
    /// Fallible operation that created this obligation.
    pub retarget_operation: String,
    /// Required immediately-following commit helper.
    pub commit_operation: String,
    /// Source span for diagnostics if interposition occurs.
    pub span: Span,
}

/// What a pending commit records: root, retarget operation, commit operation, span.
pub ghost struct PendingView {
    pub root: Seq<char>,
    pub retarget: Seq<char>,
    pub commit: Seq<char>,
    pub span: Span,
}

/// The first spec, in the given order, with a retarget rule for `operation`, and that rule.
pub open spec fn first_spec_with_rule(entries: Seq<(String, AffineAggregateSpec)>, operation: Seq<char>)
    -> Option<(AffineAggregateSpec, AffineAggregateRetargetRule)>
    decreases entries.len(),
{
    if entries.len() == 0 {
        None
    } else {
        match first_spec_with_rule(entries.drop_last(), operation) {
            Some(x) => Some(x),
            None => {
                let spec = entries.last().1;
                match first_rule_index(spec, operation) {
                    Some(k) => Some((spec, spec.retarget_rules@[k])),
                    None => None,
                }
            },
        }
    }
}

/// Reason reported when a statement interposes between a retarget and its commit.
pub open spec fn interpose_reason(p: PendingView) -> Seq<char> {
    "fallible or observable operation cannot interpose after successful '"@ + p.retarget
        + "' retarget before matching '"@ + p.commit + "' commit on aggregate '"@ + p.root + "'"@
}

/// Reason reported when a statement sequence ends with a commit still pending.
pub open spec fn missing_commit_reason(p: PendingView) -> Seq<char> {
    "missing matching '"@ + p.commit + "' commit after successful '"@ + p.retarget
        + "' retarget on aggregate '"@ + p.root + "'"@
}

/// Reason reported for a transition helper an aggregate does not declare.
pub open spec fn undeclared_transition_reason(operation: Seq<char>, aggregate: Seq<char>) -> Seq<char> {
    "undeclared layout transition '"@ + operation + "' for transactional affine aggregate '"@ + aggregate + "'"@
}

/// Registered aggregate specs, the types of the bindings in scope, and the commit a
/// statement sequence still owes.
#[derive(Debug)]
pub struct AffineAggregateBarrier {
    specs: NameMap<AffineAggregateSpec>,
    bindings: NameMap<CoreType>,
    pending: Option<PendingAggregateCommit>,
}

impl AffineAggregateBarrier {
    /// Registered specs keyed by aggregate type name.
    pub closed spec fn specs(&self) -> Map<Seq<char>, AffineAggregateSpec> {
        self.specs@
    }

    /// Registered specs in ascending type-name order.
    pub closed spec fn spec_entries(&self) -> Seq<(String, AffineAggregateSpec)> {
        self.specs.entries_spec()
    }

    /// Models of the types of the bindings in scope.
    pub closed spec fn binding_types(&self) -> Map<Seq<char>, TypeModel> {
        self.bindings@.map_values(|t: CoreType| model_of(t))
    }

    /// The commit still owed, if any.
    pub closed spec fn pending_view(&self) -> Option<PendingView> {
        match self.pending {
            Some(p) => Some(PendingView {
                root: p.aggregate_root@,
                retarget: p.retarget_operation@,
                commit: p.commit_operation@,
                span: p.span,
            }),
            None => None,
        }
    }

    /// Well-formedness of the keyed tables.
    pub closed spec fn wf(&self) -> bool {
        self.specs.wf() && self.bindings.wf()
    }

    /// The spec of the aggregate type of binding `root`, if it has one.
    pub open spec fn spec_for_root(&self, root: Seq<char>) -> Option<AffineAggregateSpec> {
        if self.binding_types().contains_key(root) {
            match self.binding_types()[root] {
                TypeModel::Generic { name, .. } => if self.specs().contains_key(name) {
                    Some(self.specs()[name])
                } else {
                    None
                },
                _ => None,
            }
        } else {
            None
        }
    }

    /// The retarget a statement performs: its operation, span and aggregate root, with the
    /// first registered spec (by type name) that has a rule for the operation, and the rule.
    pub open spec fn retarget_of(&self, s: Stmt) -> Option<(Seq<char>, Span, Seq<char>, AffineAggregateSpec, AffineAggregateRetargetRule)> {
        match rooted_call(s) {
            Some((op, span, root)) => if self.spec_for_root(root) is Some {
                match first_spec_with_rule(self.spec_entries(), op) {
                    Some((spec, rule)) => Some((op, span, root, spec, rule)),
                    None => None,
                }
            } else {
                None
            },
            None => None,
        }
    }

    /// The registered spec of aggregate type `name`.
    pub fn aggregate_spec(&self, name: &str) -> (r: Option<&AffineAggregateSpec>)
        requires
            self.wf(),
        ensures
            r is None <==> !self.specs().contains_key(name@),
            r matches Some(s) ==> *s == self.specs()[name@],
    {
        self.specs.get(name)
    }

    /// A barrier with no specs, no bindings and nothing pending.
    pub fn new() -> (r: Self)
        ensures
            r.wf(),
            r.specs() == Map::<Seq<char>, AffineAggregateSpec>::empty(),
            r.binding_types() == Map::<Seq<char>, TypeModel>::empty(),
            r.pending_view() is None,
    {
        let r = AffineAggregateBarrier { specs: NameMap::new(), bindings: NameMap::new(), pending: None };
        assert(r.binding_types() =~= Map::<Seq<char>, TypeModel>::empty());
        r
    }

    /// Register one aggregate spec after validating exact obligation coverage; a spec
    /// that fails validation is reported and not registered.
    pub fn register_affine_aggregate_spec(&mut self, spec: AffineAggregateSpec) -> (r: Result<(), TypeError>)
        requires
            old(self).wf(),
        ensures
            final(self).wf(),
            final(self).binding_types() == old(self).binding_types(),
            final(self).pending_view() == old(self).pending_view(),
            validation_error(spec) is None ==> r is Ok && final(self).specs() == old(self).specs().insert(
                spec.type_label@, spec),
            validation_error(spec) matches Some(reason) ==> final(self).specs() == old(self).specs()
                && (r matches Err(TypeError::ConstraintSolvingFailed { reason: m, span: s }) && m@ == reason
                && s == (crate::errors::DiagnosticSpan { offset: 0, length: 0 })),
    {
        match validate_affine_aggregate_spec(&spec) {
            Err(reason) => {
                return Err(TypeError::ConstraintSolvingFailed { reason, span: TypeError::unknown_span() });
            },
            Ok(()) => {},
        }
        let key = spec.type_label.clone();
        self.specs.insert(key, spec);
        Ok(())
    }

    /// Record the type of a binding in scope.
    pub fn declare_binding(&mut self, name: String, core_type: CoreType)
        requires
            old(self).wf(),
        ensures
            final(self).wf(),
            final(self).binding_types() == old(self).binding_types().insert(name@, model_of(core_type)),
            final(self).specs() == old(self).specs(),
            final(self).pending_view() == old(self).pending_view(),
    {
        let ghost before = self.bindings@;
        let ghost k = name@;
        let ghost m = model_of(core_type);
        self.bindings.insert(name, core_type);
        assert(self.binding_types() =~= before.map_values(|t: CoreType| model_of(t)).insert(k, m));
    }

    /// Return the aggregate spec for a root binding.
    fn aggregate_spec_for_root(&self, root: &str) -> (r: Option<&AffineAggregateSpec>)
        requires
            self.wf(),
        ensures
            r is None <==> self.spec_for_root(root@) is None,
            r matches Some(s) ==> self.spec_for_root(root@) == Some(*s),
    {
        match self.bindings.get(root) {
            Some(core_type) => match core_type {
                CoreType::Generic { name, .. } => self.specs.get(name.as_str()),
                _ => None,
            },
            None => None,
        }
    }

    /// The first registered spec, by type name, with a retarget rule for `operation`.
    fn spec_with_retarget_rule(&self, operation: &str) -> (r: Option<(&AffineAggregateSpec, &AffineAggregateRetargetRule)>)
        requires
            self.wf(),
        ensures
            r is None <==> first_spec_with_rule(self.spec_entries(), operation@) is None,
            r matches Some((s, rule)) ==> first_spec_with_rule(self.spec_entries(), operation@) == Some((*s, *rule)),
    {
        let ghost entries = self.spec_entries();
        let n = self.specs.len();
        let mut i: usize = 0;
        while i < n
            invariant
                self.wf(),
                entries == self.spec_entries(),
                n == entries.len(),
                i <= n,
                first_spec_with_rule(entries.take(i as int), operation@) is None,
            decreases n - i,
        {
            let (_, spec) = self.specs.entry_at(i);
            proof {
                assert(entries.take(i + 1).drop_last() =~= entries.take(i as int));
            }
            match spec.retarget_rule(operation) {
                Some(rule) => {
                    proof {
                        lemma_first_spec_with_rule_prefix(entries, i + 1, operation@);
                    }
                    return Some((spec, rule));
                },
                None => {},
            }
            i = i + 1;
        }
        proof {
            assert(entries.take(n as int) =~= entries);
        }
        None
    }

    /// Ensure no retarget/commit barrier is pending before `statement` interposes; the
    /// matching commit itself may follow.
    pub fn check_affine_aggregate_statement_before(&self, statement: &Stmt) -> (r: Result<(), TypeError>)
        ensures
            match self.pending_view() {
                None => r is Ok,
                Some(p) => if matching_commit(*statement, p.commit, p.root) is Some {
                    r is Ok
                } else {
                    r matches Err(e) && is_constraint_error(e, interpose_reason(p), p.span)
                },
            },
    {
        match &self.pending {
            None => Ok(()),
            Some(pending) => {
                if matching_commit_call_from_statement(
                    statement,
                    pending.commit_operation.as_str(),
                    pending.aggregate_root.as_str(),
                ).is_some() {
                    return Ok(());
                }
                let mut reason = join7(
                    "fallible or observable operation cannot interpose after successful '",
                    pending.retarget_operation.as_str(),
                    "' retarget before matching '",
                    pending.commit_operation.as_str(),
                    "' commit on aggregate '",
                    pending.aggregate_root.as_str(),
                    "'",
                );
                Err(aggregate_error(reason, pending.span))
            },
        }
    }

    /// Update the barrier after a statement has otherwise type checked: a matching commit
    /// clears it; a retarget of a registered aggregate sets it (and fails when its commit
    /// is not a declared transition); an undeclared reserved transition helper fails.
    pub fn update_affine_aggregate_statement_after(&mut self, statement: &Stmt) -> (r: Result<(), TypeError>)
        requires
            old(self).wf(),
        ensures
            final(self).wf(),
            final(self).specs() == old(self).specs(),
            final(self).spec_entries() == old(self).spec_entries(),
            final(self).binding_types() == old(self).binding_types(),
            ({
                let clears = match old(self).pending_view() {
                    Some(p) => matching_commit(*statement, p.commit, p.root) is Some,
                    None => false,
                };
                if clears {
                    &&& final(self).pending_view() is None
                    &&& r is Ok
                } else {
                    match old(self).retarget_of(*statement) {
                        Some((op, span, root, spec, rule)) => {
                            &&& final(self).pending_view() == Some(PendingView {
                                root,
                                retarget: op,
                                commit: rule.commit_operation@,
                                span,
                            })
                            &&& declares_transition(spec, rule.commit_operation@) ==> r is Ok
                            &&& !declares_transition(spec, rule.commit_operation@) ==> (r matches Err(e)
                                && is_constraint_error(e, undeclared_transition_reason(rule.commit_operation@,
                                spec.type_label@), span))
                        },
                        None => {
                            &&& final(self).pending_view() == old(self).pending_view()
                            &&& match rooted_call(*statement) {
                                Some((op, span, root)) => match old(self).spec_for_root(root) {
                                    Some(spec) => if !declares_transition(spec, op) && reserved_transition_name(spec, op) {
                                        r matches Err(e) && is_constraint_error(e,
                                            undeclared_transition_reason(op, spec.type_label@), span)
                                    } else {
                                        r is Ok
                                    },
                                    None => r is Ok,
                                },
                                None => r is Ok,
                            }
                        },
                    }
                }
            }),
    {
        let clears = match &self.pending {
            Some(pending) => matching_commit_call_from_statement(
                statement,
                pending.commit_operation.as_str(),
                pending.aggregate_root.as_str(),
            ).is_some(),
            None => false,
        };
        if clears {
            self.pending = None;
            return Ok(());
        }
        let call = transition_call_from_statement(statement);
        match call {
            Some((operation, span, aggregate_root)) => {
                let rooted = self.aggregate_spec_for_root(aggregate_root.as_str());
                match rooted {
                    Some(root_spec) => {
                        let found = self.spec_with_retarget_rule(operation.as_str());
                        match found {
                            Some((spec, rule)) => {
                                let commit = rule.commit_operation.clone();
                                let declared = spec.has_transition_operation(commit.as_str());
                                let failure = if declared {
                                    None
                                } else {
                                    let reason = join5(
                                        "undeclared layout transition '",
                                        commit.as_str(),
                                        "' for transactional affine aggregate '",
                                        spec.type_label.as_str(),
                                        "'",
                                    );
                                    Some(aggregate_error(reason, span))
                                };
                                self.pending = Some(PendingAggregateCommit {
                                    aggregate_root,
                                    retarget_operation: operation,
                                    commit_operation: commit,
                                    span,
                                });
                                return match failure {
                                    Some(e) => Err(e),
                                    None => Ok(()),
                                };
                            },
                            None => {
                                if root_spec.has_transition_operation(operation.as_str()) {
                                    return Ok(());
                                }
                                if root_spec.helper_name_is_reserved_transition(operation.as_str()) {
                                    let reason = join5(
                                        "undeclared layout transition '",
                                        operation.as_str(),
                                        "' for transactional affine aggregate '",
                                        root_spec.type_label.as_str(),
                                        "'",
                                    );
                                    return Err(aggregate_error(reason, span));
                                }
                                Ok(())
                            },
                        }
                    },
                    None => Ok(()),
                }
            },
            None => Ok(()),
        }
    }

    /// Reject a scope or function that exits while a retarget commit is still pending.
    pub fn finish_affine_aggregate_statement_sequence(&self) -> (r: Result<(), TypeError>)
        ensures
            match self.pending_view() {
                None => r is Ok,
                Some(p) => r matches Err(e) && is_constraint_error(e, missing_commit_reason(p), p.span),
            },
    {
        match &self.pending {
            None => Ok(()),
            Some(pending) => {
                let reason = join7(
                    "missing matching '",
                    pending.commit_operation.as_str(),
                    "' commit after successful '",
                    pending.retarget_operation.as_str(),
                    "' retarget on aggregate '",
                    pending.aggregate_root.as_str(),
                    "'",
                );
                Err(aggregate_error(reason, pending.span))
            },
        }
    }
}

/// A spec found in a prefix is the spec found in the whole sequence.
proof fn lemma_first_spec_with_rule_prefix(entries: Seq<(String, AffineAggregateSpec)>, k: int, operation: Seq<char>)
    requires
        0 <= k <= entries.len(),
        first_spec_with_rule(entries.take(k), operation) is Some,
    ensures
        first_spec_with_rule(entries, operation) == first_spec_with_rule(entries.take(k), operation),
    decreases entries.len(),
{
    if k < entries.len() {
        assert(entries.drop_last().take(k) =~= entries.take(k));
        lemma_first_spec_with_rule_prefix(entries.drop_last(), k, operation);
    } else {
        assert(entries.take(k) =~= entries);
    }
}

} // verus!
