//! Cleanup registrations of affine resources acquired by `using`, and the stack of
//! cleanup obligations of the live `using` bindings.

use vstd::prelude::*;
use crate::affine_aggregates::registered_cleanup;
use crate::ast::{BorrowKind, Expr};
use crate::error_families::{error_leaf_model, stdlib_error_core_type};
use crate::text::str_eq;
use crate::types::{lemma_models_of, model_of, models_of, CoreType, TypeModel};

verus! {

/// One compiler-visible cleanup-authority transfer result.
#[derive(Debug, Clone, Copy, PartialEq, Eq)]
pub struct CleanupAuthorityTransfer {
    /// Operation whose cleanup-only result transfers authority.
    pub operation: &'static str,
    /// Nominal error family that carries the transfer result.
    pub error_family: &'static str,
    /// Exact variant that transfers cleanup authority.
    pub variant: &'static str,
}

/// One compiler-visible affine resource cleanup registration.
#[derive(Debug, Clone, Copy, PartialEq, Eq)]
pub struct CleanupRegistration {
    /// Registered affine resource type name.
    pub resource_type: &'static str,
    /// Declared cleanup operation name.
    pub cleanup_operation: &'static str,
    /// Nominal cleanup error families.
    pub cleanup_errors: &'static [&'static str],
    /// Optional exact cleanup-authority transfer result.
    pub transfer: Option<CleanupAuthorityTransfer>,
}

/// Operation, error family and variant of a transfer.
pub open spec fn transfer_view(t: Option<CleanupAuthorityTransfer>) -> Option<(Seq<char>, Seq<char>, Seq<char>)> {
    match t {
        Some(t) => Some((t.operation@, t.error_family@, t.variant@)),
        None => None,
    }
}

/// The cleanup operation, cleanup error families and authority transfer registered for
/// a resource type.
pub open spec fn registered_using_cleanup(resource: Seq<char>)
    -> Option<(Seq<char>, Seq<Seq<char>>, Option<(Seq<char>, Seq<char>, Seq<char>)>)> {
    if resource == "SystemWaitSet"@ {
        Some(("system_wait_set_drop"@, seq![], None))
    } else if resource == "SystemOwnedWaitRegistration"@ {
        Some(("system_owned_wait_registration_drop"@, seq![], None))
    } else if resource == "ProcessControlSource"@ {
        Some(("process_control_source_drop"@, seq![], None))
    } else if resource == "MonotonicTimer"@ {
        Some(("monotonic_timer_drop"@, seq![], None))
    } else if resource == "CancellationSource"@ {
        Some(("cancellation_source_drop"@, seq![], None))
    } else if resource == "TerminalSession"@ {
        Some((
            "terminal_session_close_sync"@,
            seq!["TerminalSessionRestoreError"@],
            Some(("terminal_session_close_sync"@, "TerminalSessionRestoreError"@, "CloseRestorePending"@)),
        ))
    } else if resource == "TerminalChordRouter"@ {
        Some(("terminal_chord_router_drop"@, seq![], None))
    } else if resource == "TerminalTestScenario"@ {
        Some(("terminal_test_scenario_drop"@, seq![], None))
    } else if resource == "TerminalTestBackendActivation"@ {
        Some(("terminal_test_backend_activation_drop"@, seq![], None))
    } else {
        None
    }
}

/// Views of a slice of string slices.
pub open spec fn str_views(s: Seq<&str>) -> Seq<Seq<char>> {
    s.map_values(|x: &str| x@)
}

/// What a registration records.
pub open spec fn registration_view(r: CleanupRegistration)
    -> (Seq<char>, Seq<Seq<char>>, Option<(Seq<char>, Seq<char>, Seq<char>)>) {
    (r.cleanup_operation@, str_views(r.cleanup_errors@), transfer_view(r.transfer))
}

/// A registration without cleanup errors or transfer.
fn plain_registration(resource_type: &'static str, cleanup_operation: &'static str) -> (r: CleanupRegistration)
    ensures
        r.resource_type == resource_type,
        r.cleanup_operation == cleanup_operation,
        str_views(r.cleanup_errors@) == Seq::<Seq<char>>::empty(),
        r.transfer is None,
{
    let no_errors: &'static [&'static str] = &[];
    let r = CleanupRegistration { resource_type, cleanup_operation, cleanup_errors: no_errors, transfer: None };
    assert(str_views(r.cleanup_errors@) =~= Seq::<Seq<char>>::empty());
    r
}

/// Return the registered cleanup entry for one resource type.
pub fn cleanup_registration(resource_type: &str) -> (r: Option<CleanupRegistration>)
    ensures
        r is None <==> registered_using_cleanup(resource_type@) is None,
        r matches Some(reg) ==> reg.resource_type@ == resource_type@ && registered_using_cleanup(resource_type@)
            == Some(registration_view(reg)),
{
    if str_eq(resource_type, "SystemWaitSet") {
        Some(plain_registration("SystemWaitSet", "system_wait_set_drop"))
    } else if str_eq(resource_type, "SystemOwnedWaitRegistration") {
        Some(plain_registration("SystemOwnedWaitRegistration", "system_owned_wait_registration_drop"))
    } else if str_eq(resource_type, "ProcessControlSource") {
        Some(plain_registration("ProcessControlSource", "process_control_source_drop"))
    } else if str_eq(resource_type, "MonotonicTimer") {
        Some(plain_registration("MonotonicTimer", "monotonic_timer_drop"))
    } else if str_eq(resource_type, "CancellationSource") {
        Some(plain_registration("CancellationSource", "cancellation_source_drop"))
    } else if str_eq(resource_type, "TerminalSession") {
        let errors: &'static [&'static str] = &["TerminalSessionRestoreError"];
        let r = CleanupRegistration {
            resource_type: "TerminalSession",
            cleanup_operation: "terminal_session_close_sync",
            cleanup_errors: errors,
            transfer: Some(CleanupAuthorityTransfer {
                operation: "terminal_session_close_sync",
                error_family: "TerminalSessionRestoreError",
                variant: "CloseRestorePending",
            }),
        };
        assert(str_views(r.cleanup_errors@) =~= seq!["TerminalSessionRestoreError"@]);
        Some(r)
    } else if str_eq(resource_type, "TerminalChordRouter") {
        Some(plain_registration("TerminalChordRouter", "terminal_chord_router_drop"))
    } else if str_eq(resource_type, "TerminalTestScenario") {
        Some(plain_registration("TerminalTestScenario", "terminal_test_scenario_drop"))
    } else if str_eq(resource_type, "TerminalTestBackendActivation") {
        Some(plain_registration("TerminalTestBackendActivation", "terminal_test_backend_activation_drop"))
    } else {
        None
    }
}

impl CleanupRegistration {
    /// Cleanup error family names as nominal core types, in order.
    pub fn cleanup_error_types(&self) -> (r: Vec<CoreType>)
        ensures
            models_of(r@) == str_views(self.cleanup_errors@).map_values(|n: Seq<char>| error_leaf_model(n)),
    {
        let mut out: Vec<CoreType> = Vec::new();
        let mut i: usize = 0;
        while i < self.cleanup_errors.len()
            invariant
                i <= self.cleanup_errors@.len(),
                out@.len() == i,
                forall|j: int| 0 <= j < i ==> model_of(#[trigger] out@[j]) == error_leaf_model(self.cleanup_errors@[j]@),
            decreases self.cleanup_errors@.len() - i,
        {
            out.push(stdlib_error_core_type(self.cleanup_errors[i]));
            i = i + 1;
        }
        proof {
            lemma_models_of(out@);
            assert(models_of(out@) =~= str_views(self.cleanup_errors@).map_values(|n: Seq<char>| error_leaf_model(n)));
        }
        out
    }
}

/// Operation named by a direct or module-qualified callee.
pub open spec fn callee_operation(callee: Expr) -> Option<Seq<char>> {
    match callee {
        Expr::Identifier { name, .. } => Some(name@),
        Expr::Member { member, .. } => Some(member@),
        _ => None,
    }
}

/// Binding named by a first argument of the form `mutable ref <identifier>`.
pub open spec fn mutable_ref_binding(args: Seq<Expr>) -> Option<Seq<char>> {
    if args.len() == 0 {
        None
    } else {
        match args[0] {
            Expr::BorrowArgument { target, borrow_kind: BorrowKind::MutableRef, .. } => match *target {
                Expr::Identifier { name, .. } => Some(name@),
                _ => None,
            },
            _ => None,
        }
    }
}

/// Extract a called operation name from a direct or module-qualified callee.
pub fn cleanup_operation_name(callee: &Expr) -> (r: Option<&str>)
    ensures
        r is None <==> callee_operation(*callee) is None,
        r matches Some(n) ==> callee_operation(*callee) == Some(n@),
{
    match callee {
        Expr::Identifier { name, .. } => Some(name.as_str()),
        Expr::Member { member, .. } => Some(member.as_str()),
        _ => None,
    }
}

/// Extract the binding name from a cleanup operation's `mutable ref` argument.
pub fn cleanup_mutable_ref_binding(args: &[Expr]) -> (r: Option<&str>)
    ensures
        r is None <==> mutable_ref_binding(args@) is None,
        r matches Some(n) ==> mutable_ref_binding(args@) == Some(n@),
{
    if args.len() == 0 {
        return None;
    }
    match &args[0] {
        Expr::BorrowArgument { target, borrow_kind: BorrowKind::MutableRef, .. } => match &**target {
            Expr::Identifier { name, .. } => Some(name.as_str()),
            _ => None,
        },
        _ => None,
    }
}

/// Extract a direct nominal affine resource type name: a nominal type without arguments.
pub fn direct_resource_type_name(core_type: &CoreType) -> (r: Option<&str>)
    ensures
        match model_of(*core_type) {
            TypeModel::Generic { name, type_args } => if type_args.len() == 0 {
                r matches Some(n) && n@ == name
            } else {
                r is None
            },
            _ => r is None,
        },
{
    match core_type {
        CoreType::Generic { name, type_args } => {
            proof {
                lemma_models_of(type_args@);
            }
            if type_args.len() == 0 {
                Some(name.as_str())
            } else {
                None
            }
        },
        _ => None,
    }
}

/// One active compiler-owned cleanup obligation for a scoped `using` binding.
#[derive(Debug)]
pub struct UsingCleanupObligation {
    /// Binding whose resource owns the cleanup obligation.
    pub binding_name: String,
    /// Declared cleanup operation that can consume this obligation.
    pub cleanup_operation: &'static str,
    /// Optional exact cleanup-authority transfer result.
    pub transfer: Option<CleanupAuthorityTransfer>,
    /// Whether successful explicit close already consumed the obligation.
    pub consumed: bool,
}

/// Index of the innermost obligation of `binding`.
pub open spec fn innermost_obligation(s: Seq<UsingCleanupObligation>, binding: Seq<char>) -> Option<int>
    decreases s.len(),
{
    if s.len() == 0 {
        None
    } else if s.last().binding_name@ == binding {
        Some(s.len() - 1)
    } else {
        innermost_obligation(s.drop_last(), binding)
    }
}

/// The innermost obligation of a binding is one of its obligations.
pub proof fn lemma_innermost_obligation(s: Seq<UsingCleanupObligation>, binding: Seq<char>)
    ensures
        innermost_obligation(s, binding) matches Some(i) ==> 0 <= i < s.len() && s[i].binding_name@ == binding,
    decreases s.len(),
{
    if s.len() > 0 {
        lemma_innermost_obligation(s.drop_last(), binding);
    }
}

/// Operation and binding of a successful call that may consume an obligation.
pub open spec fn cleanup_call_target(call: Expr) -> Option<(Seq<char>, Seq<char>)> {
    match call {
        Expr::Call { callee, args, .. } => match (callee_operation(*callee), mutable_ref_binding(args@)) {
            (Some(op), Some(binding)) => Some((op, binding)),
            _ => None,
        },
        _ => None,
    }
}

/// The obligations of the live `using` bindings, innermost last.
#[derive(Debug)]
pub struct UsingCleanupObligations {
    obligations: Vec<UsingCleanupObligation>,
}

impl UsingCleanupObligations {
    /// The obligations, innermost last.
    pub closed spec fn stack(&self) -> Seq<UsingCleanupObligation> {
        self.obligations@
    }

    /// No live obligations.
    pub fn new() -> (r: Self)
        ensures
            r.stack() == Seq::<UsingCleanupObligation>::empty(),
    {
        UsingCleanupObligations { obligations: Vec::new() }
    }

    /// Push one unconsumed obligation for a `using` binding.
    pub fn push_using_cleanup_obligation(&mut self, binding_name: String, registration: CleanupRegistration)
        ensures
            final(self).stack() == old(self).stack().push(UsingCleanupObligation {
                binding_name,
                cleanup_operation: registration.cleanup_operation,
                transfer: registration.transfer,
                consumed: false,
            }),
    {
        self.obligations.push(UsingCleanupObligation {
            binding_name,
            cleanup_operation: registration.cleanup_operation,
            transfer: registration.transfer,
            consumed: false,
        });
    }

    /// Pop the innermost obligation when its `using` scope ends.
    pub fn pop_using_cleanup_obligation(&mut self) -> (r: Option<UsingCleanupObligation>)
        ensures
            old(self).stack().len() == 0 ==> r is None && final(self).stack() == old(self).stack(),
            old(self).stack().len() > 0 ==> r == Some(old(self).stack().last())
                && final(self).stack() == old(self).stack().drop_last(),
    {
        self.obligations.pop()
    }

    /// The obligation at position `i`, outermost first.
    pub fn obligation(&self, i: usize) -> (r: &UsingCleanupObligation)
        requires
            i < self.stack().len(),
        ensures
            *r == self.stack()[i as int],
    {
        &self.obligations[i]
    }

    /// Record a successful explicit cleanup: when `call` invokes, on `mutable ref b`, the
    /// registered cleanup operation of the innermost obligation of `b`, that obligation
    /// is consumed. Nothing else changes.
    pub fn consume_using_cleanup_obligation_after_success(&mut self, call: &Expr)
        ensures
            match cleanup_call_target(*call) {
                Some((op, binding)) => match innermost_obligation(old(self).stack(), binding) {
                    Some(i) => if old(self).stack()[i].cleanup_operation@ == op {
                        final(self).stack() == old(self).stack().update(i, UsingCleanupObligation {
                            consumed: true,
                            ..old(self).stack()[i]
                        })
                    } else {
                        final(self).stack() == old(self).stack()
                    },
                    None => final(self).stack() == old(self).stack(),
                },
                None => final(self).stack() == old(self).stack(),
            },
    {
        let (callee, args) = match call {
            Expr::Call { callee, args, .. } => (callee, args),
            _ => return,
        };
        let operation_name = match cleanup_operation_name(&**callee) {
            Some(n) => n,
            None => return,
        };
        let binding_name = match cleanup_mutable_ref_binding(args.as_slice()) {
            Some(n) => n,
            None => return,
        };
        match self.innermost_index(binding_name) {
            Some(i) => {
                if str_eq(self.obligations[i].cleanup_operation, operation_name) {
                    self.obligations[i].consumed = true;
                }
            },
            None => {},
        }
    }

    /// Index of the innermost obligation of a binding.
    fn innermost_index(&self, binding_name: &str) -> (r: Option<usize>)
        ensures
            r is None <==> innermost_obligation(self.stack(), binding_name@) is None,
            r matches Some(k) ==> innermost_obligation(self.stack(), binding_name@) == Some(k as int)
                && k < self.stack().len(),
    {
        proof {
            lemma_innermost_obligation(self.obligations@, binding_name@);
            assert(self.obligations@.take(self.obligations@.len() as int) =~= self.obligations@);
        }
        let mut i: usize = self.obligations.len();
        while i > 0
            invariant
                i <= self.obligations@.len(),
                innermost_obligation(self.obligations@, binding_name@) == innermost_obligation(
                    self.obligations@.take(i as int), binding_name@),
            decreases i,
        {
            let ghost t = self.obligations@.take(i as int);
            proof {
                assert(t.drop_last() =~= self.obligations@.take(i - 1));
                assert(t.last() == self.obligations@[i - 1]);
            }
            if str_eq(self.obligations[i - 1].binding_name.as_str(), binding_name) {
                proof {
                    lemma_innermost_obligation(self.obligations@, binding_name@);
                }
                return Some(i - 1);
            }
            i = i - 1;
        }
        None
    }

    /// Return whether a cleanup result is the exact registered authority transfer of the
    /// innermost obligation of `binding_name`.
    pub fn cleanup_result_transfers_authority(
        &self,
        binding_name: &str,
        operation: &str,
        error_family: &str,
        variant: &str,
    ) -> (r: bool)
        ensures
            r == (match innermost_obligation(self.stack(), binding_name@) {
                Some(i) => transfer_view(self.stack()[i].transfer) == Some((operation@, error_family@, variant@)),
                None => false,
            }),
    {
        proof {
            assert(self.obligations@.take(self.obligations@.len() as int) =~= self.obligations@);
        }
        match self.innermost_index(binding_name) {
            Some(i) => match self.obligations[i].transfer {
                Some(transfer) => str_eq(transfer.operation, operation) && str_eq(transfer.error_family, error_family)
                    && str_eq(transfer.variant, variant),
                None => false,
            },
            None => false,
        }
    }
}

/// A resource with both an aggregate cleanup registration and a `using` cleanup
/// registration names the same cleanup operation in both.
pub proof fn law_cleanup_registries_agree(resource: Seq<char>)
    requires
        registered_cleanup(resource) is Some,
        registered_using_cleanup(resource) is Some,
    ensures
        registered_cleanup(resource)->0 == (registered_using_cleanup(resource)->0).0,
{
    reveal_strlit("SystemWaitSet");
    assert("SystemWaitSet"@.len() == 13);
    reveal_strlit("SystemOwnedWaitRegistration");
    assert("SystemOwnedWaitRegistration"@.len() == 27);
    reveal_strlit("ProcessControlSource");
    assert("ProcessControlSource"@.len() == 20);
    reveal_strlit("MonotonicTimer");
    assert("MonotonicTimer"@.len() == 14);
    reveal_strlit("CancellationSource");
    assert("CancellationSource"@.len() == 18);
    reveal_strlit("TerminalChordRouter");
    assert("TerminalChordRouter"@.len() == 19);
    reveal_strlit("TerminalSession");
    assert("TerminalSession"@.len() == 15);
    reveal_strlit("TerminalTestScenario");
    assert("TerminalTestScenario"@.len() == 20);
    reveal_strlit("TerminalTestBackendActivation");
    assert("TerminalTestBackendActivation"@.len() == 29);
    reveal_strlit("EditorChordRuntime");
    assert("EditorChordRuntime"@.len() == 18);
    reveal_strlit("TerminalAggregateFixture");
    assert("TerminalAggregateFixture"@.len() == 24);
    reveal_strlit("TerminalAggregateMember");
    assert("TerminalAggregateMember"@.len() == 23);
}

} // verus!
