use opalescent_types::affine_aggregates::nominal_type;
use opalescent_types::ast::Expr;
use opalescent_types::error_families::StdlibErrorFamily;
use opalescent_types::errors::TypeError;
use opalescent_types::propagation::{
    ensure_propagate_error_types_allowed, ensure_using_cleanup_errors_allowed, errors_covered,
};
use opalescent_types::token::{Position, Span};
use opalescent_types::using_cleanup::cleanup_registration;

fn span() -> Span {
    Span::single(Position::start())
}

fn families() -> Vec<StdlibErrorFamily> {
    vec![StdlibErrorFamily {
        name: "IoError".to_owned(),
        members: vec!["FileNotFoundError".to_owned(), "PermissionDeniedError".to_owned()],
        warning_eligible: true,
        specificity_rank: 1,
    }]
}

fn call() -> Expr {
    Expr::Call {
        callee: Box::new(Expr::Identifier { name: "read".to_string(), span: span() }),
        args: Vec::new(),
        span: span(),
    }
}

#[test]
fn declared_family_covers_its_leaves() {
    let declared = [nominal_type("IoError")];
    assert!(errors_covered(&families(), &[nominal_type("FileNotFoundError")], &declared));
    assert!(errors_covered(&families(), &[nominal_type("IoError")], &declared));
    assert!(!errors_covered(&families(), &[nominal_type("ParseError")], &declared));
    assert!(errors_covered(&families(), &[], &declared));
}

#[test]
fn propagation_needs_an_erroring_function() {
    let err = ensure_propagate_error_types_allowed(&families(), None, None, &call(), &[nominal_type("IoError")], span())
        .unwrap_err();
    assert!(matches!(err, TypeError::PropagateOutsideErrorFunction { .. }));
    let err = ensure_propagate_error_types_allowed(&families(), Some(&[]), None, &call(), &[nominal_type("IoError")], span())
        .unwrap_err();
    assert!(matches!(err, TypeError::PropagateOutsideErrorFunction { .. }));
}

#[test]
fn undeclared_propagated_errors_are_listed() {
    let declared = [nominal_type("IoError")];
    assert!(ensure_propagate_error_types_allowed(
        &families(),
        Some(&declared),
        None,
        &call(),
        &[nominal_type("PermissionDeniedError")],
        span()
    )
    .is_ok());
    let err = ensure_propagate_error_types_allowed(
        &families(),
        Some(&declared),
        None,
        &call(),
        &[nominal_type("PermissionDeniedError"), nominal_type("ParseError")],
        span(),
    )
    .unwrap_err();
    match err {
        TypeError::PropagateErrorMismatch { expected, found, .. } => {
            assert_eq!(expected, "IoError");
            assert_eq!(found, "PermissionDeniedError, ParseError");
        }
        other => panic!("unexpected {other:?}"),
    }
}

#[test]
fn cleanup_errors_must_be_declared() {
    let wait_set = cleanup_registration("SystemWaitSet").expect("registered");
    assert!(ensure_using_cleanup_errors_allowed(&families(), None, None, &wait_set, span()).is_ok());
    let session = cleanup_registration("TerminalSession").expect("registered");
    let err = ensure_using_cleanup_errors_allowed(&families(), None, None, &session, span()).unwrap_err();
    assert!(matches!(err, TypeError::PropagateOutsideErrorFunction { .. }));
    let declared = [nominal_type("TerminalSessionRestoreError")];
    assert!(ensure_using_cleanup_errors_allowed(&families(), Some(&declared), None, &session, span()).is_ok());
}
