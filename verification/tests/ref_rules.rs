use opalescent_types::ast::{BorrowKind, Expr, LiteralValue, Stmt};
use opalescent_types::errors::TypeError;
use opalescent_types::guard_errors::{
    core_type_can_be_error_value, format_error_type_list, guard_error_type_sets_match, guard_error_types_are_homogeneous,
};
use opalescent_types::ownership::{OwnerBinding, OwnershipState};
use opalescent_types::ref_rules::{
    affine_escape_error, affine_use_after_move_error, borrow_escape_error, borrow_mode_mismatch_error,
    borrow_required_error, check_explicit_borrow_argument, direct_identifier_name, ensure_affine_argument_available,
    ensure_owner_not_moved, expected_borrow_kind_for_call, identifier_name, is_direct_borrow_escape_shape,
    is_new_owner_call_result, unwrapped_expr,
};
use opalescent_types::token::{Position, Span};
use opalescent_types::types::CoreType;

fn at(offset: usize) -> Span {
    Span::single(Position::new(1, offset + 1, offset))
}

fn reason(e: TypeError) -> String {
    match e {
        TypeError::ConstraintSolvingFailed { reason, .. } => reason,
        other => panic!("unexpected {other:?}"),
    }
}

fn ident(name: &str) -> Expr {
    Expr::Identifier { name: name.to_owned(), span: at(3) }
}

fn paren(e: Expr) -> Expr {
    Expr::Parenthesized { expr: Box::new(e), span: at(0) }
}

fn nominal(name: &str) -> CoreType {
    CoreType::Generic { name: name.to_owned(), type_args: Vec::new() }
}

#[test]
fn ownership_diagnostics_read_as_documented() {
    let owner = OwnerBinding { type_label: "File".to_owned(), source_location: at(4), moved_at: Some(at(27)) };
    assert_eq!(
        reason(affine_use_after_move_error("f", &owner, at(30))),
        "affine resource 'f' of type 'File' was already moved at byte 27 and cannot be used again"
    );
    let fresh = OwnerBinding { type_label: "File".to_owned(), source_location: at(4), moved_at: None };
    assert!(reason(affine_use_after_move_error("f", &fresh, at(30))).contains("at byte 4 "));
    assert_eq!(
        reason(affine_escape_error("f", "File", "be returned", at(0))),
        "affine resource 'f' of type 'File' cannot be returned"
    );
    assert_eq!(reason(borrow_escape_error("r", "be stored", at(0))), "second-class borrow 'r' cannot be stored");
    assert_eq!(
        reason(borrow_required_error(BorrowKind::MutableRef, at(0))),
        "parameter requires a 'mutable ref' call-site borrow argument"
    );
    assert_eq!(
        reason(borrow_mode_mismatch_error(BorrowKind::Ref, BorrowKind::Owned, at(0))),
        "borrow argument mismatch: expected 'ref', found 'owned'"
    );
}

#[test]
fn moved_owners_cannot_be_used() {
    let mut ownership = OwnershipState::new();
    ownership.register_owner_binding("f".to_owned(), "File".to_owned(), at(1));
    assert!(ensure_owner_not_moved(&ownership, "f", at(5)).is_ok());
    assert!(ensure_owner_not_moved(&ownership, "g", at(5)).is_ok());
    ownership.mark_owner_moved("f", at(9));
    let message = reason(ensure_owner_not_moved(&ownership, "f", at(5)).unwrap_err());
    assert_eq!(message, "affine resource 'f' of type 'File' was already moved at byte 9 and cannot be used again");
    assert!(ensure_affine_argument_available(&ownership, &ident("f")).is_err());
    assert!(ensure_affine_argument_available(&ownership, &paren(ident("f"))).is_ok());
}

#[test]
fn expression_shapes_look_through_wrappers() {
    let call = Expr::Call { callee: Box::new(ident("open")), args: Vec::new(), span: at(0) };
    assert!(is_new_owner_call_result(&paren(call)));
    let guard = Expr::Guard {
        expr: Box::new(ident("read")),
        else_branch: Box::new(Stmt::Comment { span: at(0) }),
        span: at(0),
    };
    assert!(is_new_owner_call_result(&guard));
    assert!(!is_new_owner_call_result(&ident("x")));
    assert!(is_direct_borrow_escape_shape(&Expr::Cast { expr: Box::new(ident("x")), span: at(0) }));
    let literal = Expr::Literal { value: LiteralValue::Integer(1), span: at(0) };
    assert!(!is_direct_borrow_escape_shape(&literal));
    let borrowed = Expr::BorrowArgument { target: Box::new(paren(ident("buf"))), borrow_kind: BorrowKind::Ref, span: at(0) };
    assert_eq!(identifier_name(&borrowed), Some("buf"));
    assert_eq!(direct_identifier_name(&borrowed), None);
    assert_eq!(direct_identifier_name(&paren(paren(ident("y")))), Some("y"));
    assert!(matches!(unwrapped_expr(&paren(paren(ident("z")))), Expr::Identifier { name, .. } if name == "z"));
}

#[test]
fn guard_error_lists_compare_by_display_name() {
    let a = nominal("NotFoundError");
    let b = nominal("TimeoutError");
    assert!(guard_error_type_sets_match(&[a, b], &[nominal("TimeoutError"), nominal("NotFoundError")]));
    assert!(!guard_error_type_sets_match(
        &[nominal("TimeoutError"), nominal("TimeoutError")],
        &[nominal("TimeoutError"), nominal("NotFoundError")]
    ));
    assert!(!guard_error_type_sets_match(&[nominal("TimeoutError")], &[]));
    assert_eq!(format_error_type_list(&[]), "<none>");
    assert_eq!(format_error_type_list(&[nominal("AError"), CoreType::Int8]), "AError, int8");
    assert!(guard_error_types_are_homogeneous(&[]));
    assert!(guard_error_types_are_homogeneous(&[nominal("AError"), nominal("AError")]));
    assert!(!guard_error_types_are_homogeneous(&[nominal("AError"), nominal("BError")]));
    assert!(core_type_can_be_error_value(&nominal("IoError")));
    assert!(core_type_can_be_error_value(&nominal("Net.Error.Reset")));
    assert!(core_type_can_be_error_value(&CoreType::Generic {
        name: "GuardErrorContext".to_owned(),
        type_args: vec![nominal("IoError")],
    }));
    assert!(!core_type_can_be_error_value(&CoreType::Generic { name: "IoError".to_owned(), type_args: vec![CoreType::Int8] }));
    assert!(!core_type_can_be_error_value(&nominal("Point")));
    assert!(!core_type_can_be_error_value(&CoreType::String));
}

#[test]
fn registered_parameter_modes_give_the_expected_borrow() {
    let mut ownership = OwnershipState::new();
    ownership.register_function_borrow_kinds("fs.write".to_owned(), &[BorrowKind::Ref, BorrowKind::MutableRef]);
    let callee = Expr::Member { object: Box::new(ident("fs")), member: "write".to_owned(), span: at(0) };
    assert_eq!(expected_borrow_kind_for_call(&ownership, &callee, 1), Some(BorrowKind::MutableRef));
    assert_eq!(expected_borrow_kind_for_call(&ownership, &callee, 2), None);
    assert_eq!(expected_borrow_kind_for_call(&ownership, &ident("read"), 0), None);
}

#[test]
fn explicit_borrow_arguments_must_match_the_parameter_mode() {
    let ownership = OwnershipState::new();
    let shared = Expr::BorrowArgument { target: Box::new(ident("buf")), borrow_kind: BorrowKind::Ref, span: at(8) };
    let target = check_explicit_borrow_argument(&ownership, &shared, BorrowKind::Ref).expect("modes agree");
    assert!(matches!(target, Expr::Identifier { name, .. } if name == "buf"));
    let err = check_explicit_borrow_argument(&ownership, &shared, BorrowKind::MutableRef).unwrap_err();
    assert!(reason(err).starts_with("borrow argument mismatch"));
    let err = check_explicit_borrow_argument(&ownership, &ident("buf"), BorrowKind::Ref).unwrap_err();
    assert!(reason(err).starts_with("parameter requires a '"));
}
