use opalescent_types::ast::{
    BorrowKind, ConstructorField, Expr, LambdaBody, LiteralValue, MatchArm, Parameter, Pattern, ReturnValue, Stmt,
    StringPart, Type,
};
use opalescent_types::errors::TypeError;
use opalescent_types::escape::{
    check_affine_or_borrow_escape, check_lambda_captures_no_ref_params, check_stmt_for_ref_capture,
};
use opalescent_types::ownership::OwnershipState;
use opalescent_types::ref_rules::{move_affine_argument, validate_borrow_target};
use opalescent_types::token::{Position, Span};
use opalescent_types::types::CoreType;

fn at(offset: usize) -> Span {
    Span::single(Position::new(1, offset + 1, offset))
}

fn ident(name: &str, offset: usize) -> Expr {
    Expr::Identifier { name: name.to_owned(), span: at(offset) }
}

fn lit() -> Expr {
    Expr::Literal { value: LiteralValue::Integer(1), span: at(0) }
}

fn reason(r: Result<(), TypeError>) -> (String, usize) {
    match r {
        Err(TypeError::ConstraintSolvingFailed { reason, span }) => (reason, span.offset),
        other => panic!("unexpected {other:?}"),
    }
}

/// `file` owns a `File`, `view` is a shared borrow.
fn state() -> OwnershipState {
    let mut ownership = OwnershipState::new();
    ownership.register_owner_binding("file".to_owned(), "File".to_owned(), at(1));
    ownership.register_borrow_binding("view".to_owned(), BorrowKind::Ref, at(2));
    ownership
}

#[test]
fn owners_and_borrows_may_not_escape() {
    let ownership = state();
    assert!(check_affine_or_borrow_escape(&ownership, &ident("count", 3), "be returned").is_ok());
    assert_eq!(
        reason(check_affine_or_borrow_escape(&ownership, &ident("file", 4), "be returned")),
        ("affine resource 'file' of type 'File' cannot be returned".to_owned(), 4)
    );
    assert_eq!(
        reason(check_affine_or_borrow_escape(&ownership, &ident("view", 5), "be stored")),
        ("second-class borrow 'view' cannot be stored".to_owned(), 5)
    );
    let borrowed = Expr::BorrowArgument { target: Box::new(ident("x", 0)), borrow_kind: BorrowKind::Ref, span: at(6) };
    assert_eq!(
        reason(check_affine_or_borrow_escape(&ownership, &borrowed, "be stored")),
        ("second-class borrow 'temporary borrow' cannot be stored".to_owned(), 6)
    );
}

#[test]
fn escape_is_found_in_nested_positions_in_order() {
    let ownership = state();
    let call = Expr::Call {
        callee: Box::new(ident("wrap", 0)),
        args: vec![
            Expr::BorrowArgument { target: Box::new(ident("view", 1)), borrow_kind: BorrowKind::Ref, span: at(1) },
            lit(),
            ident("view", 8),
            ident("file", 9),
        ],
        span: at(0),
    };
    assert_eq!(reason(check_affine_or_borrow_escape(&ownership, &call, "be returned")).1, 8);
    let constructor = Expr::Constructor {
        callee: Box::new(ident("Pair", 0)),
        fields: vec![ConstructorField { name: "a".to_owned(), value: ident("file", 11) }],
        span: at(0),
    };
    assert_eq!(reason(check_affine_or_borrow_escape(&ownership, &constructor, "be returned")).1, 11);
    let text = Expr::StringInterpolation {
        parts: vec![StringPart::Text("x".to_owned()), StringPart::Expression(ident("view", 12))],
        span: at(0),
    };
    assert_eq!(reason(check_affine_or_borrow_escape(&ownership, &text, "be returned")).1, 12);
    let matched = Expr::Match {
        scrutinee: Box::new(lit()),
        arms: vec![MatchArm { pattern: Pattern::Wildcard { span: at(0) }, guard: Some(ident("file", 1)), body: ident("file", 13), span: at(0) }],
        span: at(0),
    };
    assert_eq!(reason(check_affine_or_borrow_escape(&ownership, &matched, "be returned")).1, 13);
    let safe = Expr::Binary {
        left: Box::new(lit()),
        operator: opalescent_types::ast::BinaryOp::Add,
        right: Box::new(Expr::Propagate { call: Box::new(lit()), cause: None, span: at(0) }),
        span: at(0),
    };
    assert!(check_affine_or_borrow_escape(&ownership, &safe, "be returned").is_ok());
}

#[test]
fn statements_inside_values_are_checked_as_captures() {
    let ownership = state();
    let branch = Expr::If {
        condition: Box::new(lit()),
        then_branch: Box::new(Stmt::Block {
            statements: vec![
                Stmt::Comment { span: at(0) },
                Stmt::Return { values: vec![ReturnValue { value: ident("file", 14), label: None }], span: at(0) },
            ],
            span: at(0),
        }),
        else_branch: None,
        span: at(0),
    };
    assert_eq!(
        reason(check_affine_or_borrow_escape(&ownership, &branch, "be returned")),
        ("affine resource 'file' of type 'File' cannot be captured".to_owned(), 14)
    );
    let looped = Stmt::While { condition: lit(), body: Box::new(Stmt::Assignment { value: ident("view", 15), span: at(0) }), span: at(0) };
    assert_eq!(reason(check_stmt_for_ref_capture(&ownership, &looped)).1, 15);
    assert!(check_stmt_for_ref_capture(&ownership, &Stmt::Let { name: "x".to_owned(), initializer: None, span: at(0) }).is_ok());
}

#[test]
fn lambdas_may_use_only_their_own_parameters() {
    let ownership = state();
    let params = vec![Parameter { name: "view".to_owned(), param_type: Type::Basic { name: "View".to_owned(), span: at(0) }, borrow_kind: BorrowKind::Ref, span: at(0) }];
    let own_param = LambdaBody::Expression(Box::new(ident("view", 16)));
    assert!(check_lambda_captures_no_ref_params(&ownership, &params, &own_param, at(0)).is_ok());
    let captures = LambdaBody::Block(vec![Stmt::Expression { expr: ident("file", 17), span: at(0) }]);
    assert_eq!(
        reason(check_lambda_captures_no_ref_params(&ownership, &params, &captures, at(0))),
        ("affine resource 'file' of type 'File' cannot be captured by a lambda".to_owned(), 17)
    );
    let lambda = Expr::Lambda { params: Vec::new(), return_types: Vec::new(), error_types: Vec::new(), body: LambdaBody::Expression(Box::new(ident("view", 18))), span: at(0) };
    assert_eq!(
        reason(check_affine_or_borrow_escape(&ownership, &lambda, "be returned")),
        ("second-class borrow 'view' cannot be captured by a lambda".to_owned(), 18)
    );
}

#[test]
fn borrow_targets_and_moves_follow_ownership() {
    let mut ownership = state();
    assert!(validate_borrow_target(&ownership, &ident("file", 0), BorrowKind::MutableRef, at(20)).is_ok());
    assert_eq!(
        reason(validate_borrow_target(&ownership, &ident("view", 0), BorrowKind::MutableRef, at(21))),
        ("borrow argument mismatch: expected 'mutable ref', found 'ref'".to_owned(), 21)
    );
    assert!(validate_borrow_target(&ownership, &ident("view", 0), BorrowKind::Ref, at(21)).is_ok());
    assert_eq!(
        reason(validate_borrow_target(&ownership, &lit(), BorrowKind::Ref, at(22))),
        ("second-class borrow 'temporary borrow' cannot borrow a non-binding expression".to_owned(), 22)
    );
    let file_type = CoreType::Generic { name: "File".to_owned(), type_args: Vec::new() };
    assert_eq!(
        reason(move_affine_argument(&mut ownership, &ident("view", 23), &file_type)),
        ("second-class borrow 'view' cannot be moved into an owned parameter".to_owned(), 23)
    );
    assert!(move_affine_argument(&mut ownership, &ident("file", 24), &file_type).is_ok());
    assert_eq!(
        reason(move_affine_argument(&mut ownership, &ident("file", 25), &file_type)),
        ("affine resource 'file' of type 'File' was already moved at byte 24 and cannot be used again".to_owned(), 25)
    );
    assert_eq!(
        reason(validate_borrow_target(&ownership, &ident("file", 26), BorrowKind::Ref, at(27))).1,
        26
    );
    assert_eq!(
        reason(move_affine_argument(&mut ownership, &lit(), &file_type)),
        ("affine resource '<expression>' of type 'File' cannot move through a non-binding expression".to_owned(), 0)
    );
}
