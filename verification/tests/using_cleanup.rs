use opalescent_types::ast::{BorrowKind, Expr};
use opalescent_types::token::{Position, Span};
use opalescent_types::types::CoreType;
use opalescent_types::using_cleanup::{
    cleanup_mutable_ref_binding, cleanup_operation_name, cleanup_registration, direct_resource_type_name,
    CleanupAuthorityTransfer, UsingCleanupObligations,
};

fn test_span() -> Span {
    Span::single(Position::new(1, 1, 0))
}

fn mutable_ref_call(operation: &str, binding_name: &str) -> Expr {
    Expr::Call {
        callee: Box::new(Expr::Identifier { name: operation.to_owned(), span: test_span() }),
        args: vec![Expr::BorrowArgument {
            target: Box::new(Expr::Identifier { name: binding_name.to_owned(), span: test_span() }),
            borrow_kind: BorrowKind::MutableRef,
            span: test_span(),
        }],
        span: test_span(),
    }
}

#[test]
fn using_cleanup_consumes_only_registered_explicit_close() {
    let mut obligations = UsingCleanupObligations::new();
    let registration = cleanup_registration("TerminalSession")
        .expect("TerminalSession cleanup registration must exist");
    obligations.push_using_cleanup_obligation(String::from("session"), registration);
    obligations.consume_using_cleanup_obligation_after_success(&mutable_ref_call("terminal_session_state", "session"));
    assert!(
        !obligations.obligation(0).consumed,
        "ordinary mutable-ref operations must not consume cleanup authority"
    );
    obligations.consume_using_cleanup_obligation_after_success(&mutable_ref_call(
        "terminal_session_close_sync",
        "other_session",
    ));
    assert!(
        !obligations.obligation(0).consumed,
        "registered cleanup operation on another binding must not consume this obligation"
    );
    obligations.consume_using_cleanup_obligation_after_success(&mutable_ref_call(
        "terminal_session_close_sync",
        "session",
    ));
    assert!(
        obligations.obligation(0).consumed,
        "successful registered close must consume exactly the live using obligation"
    );
}

#[test]
fn using_cleanup_transfer_requires_exact_registered_result() {
    let mut obligations = UsingCleanupObligations::new();
    let registration = cleanup_registration("TerminalSession")
        .expect("TerminalSession cleanup registration must exist");
    obligations.push_using_cleanup_obligation(String::from("session"), registration);
    assert!(obligations.cleanup_result_transfers_authority(
        "session",
        "terminal_session_close_sync",
        "TerminalSessionRestoreError",
        "CloseRestorePending",
    ));
    assert!(!obligations.cleanup_result_transfers_authority(
        "session",
        "terminal_session_close_sync",
        "TerminalSessionRestoreError",
        "PendingCloseRestoreFailed",
    ));
    assert!(!obligations.cleanup_result_transfers_authority(
        "session",
        "terminal_session_state",
        "TerminalSessionRestoreError",
        "CloseRestorePending",
    ));
}

#[test]
fn using_cleanup_registry_has_exact_terminal_transfer() {
    let terminal = cleanup_registration("TerminalSession")
        .expect("TerminalSession cleanup registration must exist");
    assert_eq!(
        terminal.transfer,
        Some(CleanupAuthorityTransfer {
            operation: "terminal_session_close_sync",
            error_family: "TerminalSessionRestoreError",
            variant: "CloseRestorePending",
        })
    );
    for resource in [
        "SystemWaitSet",
        "SystemOwnedWaitRegistration",
        "ProcessControlSource",
        "MonotonicTimer",
        "CancellationSource",
        "TerminalChordRouter",
        "TerminalTestScenario",
        "TerminalTestBackendActivation",
    ] {
        assert_eq!(
            cleanup_registration(resource).and_then(|registration| registration.transfer),
            None,
            "{resource} must not declare cleanup-authority transfer"
        );
    }
}

#[test]
fn cleanup_error_types_are_nominal() {
    let terminal = cleanup_registration("TerminalSession").unwrap();
    let errors = terminal.cleanup_error_types();
    assert_eq!(errors.len(), 1);
    match &errors[0] {
        CoreType::Generic { name, type_args } => {
            assert_eq!(name, "TerminalSessionRestoreError");
            assert!(type_args.is_empty());
        }
        other => panic!("unexpected {other:?}"),
    }
    assert!(cleanup_registration("MonotonicTimer").unwrap().cleanup_error_types().is_empty());
    assert!(cleanup_registration("Unknown").is_none());
}

#[test]
fn innermost_obligation_is_consumed() {
    let mut obligations = UsingCleanupObligations::new();
    let registration = cleanup_registration("MonotonicTimer").unwrap();
    obligations.push_using_cleanup_obligation(String::from("timer"), registration);
    obligations.push_using_cleanup_obligation(String::from("timer"), registration);
    obligations.consume_using_cleanup_obligation_after_success(&mutable_ref_call("monotonic_timer_drop", "timer"));
    assert!(!obligations.obligation(0).consumed);
    assert!(obligations.obligation(1).consumed);
    let popped = obligations.pop_using_cleanup_obligation().unwrap();
    assert!(popped.consumed);
}

#[test]
fn call_shape_helpers() {
    let callee = Expr::Member {
        object: Box::new(Expr::Identifier { name: "terminal".to_owned(), span: test_span() }),
        member: "close".to_owned(),
        span: test_span(),
    };
    assert_eq!(cleanup_operation_name(&callee), Some("close"));
    let args = vec![Expr::BorrowArgument {
        target: Box::new(Expr::Identifier { name: "s".to_owned(), span: test_span() }),
        borrow_kind: BorrowKind::Ref,
        span: test_span(),
    }];
    assert_eq!(cleanup_mutable_ref_binding(&args), None);
    let generic = CoreType::Generic { name: "Thing".to_owned(), type_args: vec![CoreType::Int8] };
    assert_eq!(direct_resource_type_name(&generic), None);
    let plain = CoreType::Generic { name: "Thing".to_owned(), type_args: vec![] };
    assert_eq!(direct_resource_type_name(&plain), Some("Thing"));
}
