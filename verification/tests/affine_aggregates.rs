use opalescent_types::affine_aggregates::{
    cleanup_operation_for_resource, editor_chord_runtime_spec, nominal_type, terminal_affine_aggregate_specs,
    terminal_aggregate_fixture_spec, validate_affine_aggregate_spec, AffineAggregateSlotSpec,
};
use opalescent_types::aggregate_barrier::AffineAggregateBarrier;
use opalescent_types::affine_containment::register_owner_binding_if_affine;
use opalescent_types::ast::{BorrowKind, ConstructorField, Expr, LiteralValue, ReturnValue, Stmt};
use opalescent_types::name_map::NameMap;
use opalescent_types::ownership::OwnershipState;
use opalescent_types::types::CoreType;
use opalescent_types::value_escape::{allow_affine_aggregate_constructor_field, check_value_escape};
use opalescent_types::errors::TypeError;
use opalescent_types::token::{Position, Span};

fn test_span() -> Span {
    Span::single(Position::start())
}

fn ident(name: &str) -> Expr {
    Expr::Identifier { name: name.to_owned(), span: test_span() }
}

fn mutable_ref(target: Expr) -> Expr {
    Expr::BorrowArgument { target: Box::new(target), borrow_kind: BorrowKind::MutableRef, span: test_span() }
}

fn immutable_ref(target: Expr) -> Expr {
    Expr::BorrowArgument { target: Box::new(target), borrow_kind: BorrowKind::Ref, span: test_span() }
}

fn call(operation: &str, args: Vec<Expr>) -> Expr {
    Expr::Call { callee: Box::new(ident(operation)), args, span: test_span() }
}

fn member(object: Expr, name: &str) -> Expr {
    Expr::Member { object: Box::new(object), member: name.to_owned(), span: test_span() }
}

fn call_statement(operation: &str, args: Vec<Expr>) -> Stmt {
    Stmt::Expression { expr: call(operation, args), span: test_span() }
}

fn propagate_statement(operation: &str, args: Vec<Expr>) -> Stmt {
    Stmt::Expression {
        expr: Expr::Propagate { call: Box::new(call(operation, args)), cause: None, span: test_span() },
        span: test_span(),
    }
}

fn fixture_barrier() -> AffineAggregateBarrier {
    let mut barrier = AffineAggregateBarrier::new();
    barrier
        .register_affine_aggregate_spec(terminal_aggregate_fixture_spec())
        .expect("fixture aggregate spec should register");
    barrier
}

fn seed_runtime(barrier: &mut AffineAggregateBarrier) {
    barrier.declare_binding("runtime".to_owned(), nominal_type("TerminalAggregateFixture"));
}

fn reason_of(error: TypeError) -> String {
    match error {
        TypeError::ConstraintSolvingFailed { reason, .. } => reason,
        unexpected => panic!("expected aggregate diagnostic, got: {unexpected:?}"),
    }
}

fn retarget(barrier: &mut AffineAggregateBarrier) {
    let target = member(ident("runtime"), "first");
    let statement = propagate_statement(
        "terminal_aggregate_retarget_member",
        vec![mutable_ref(ident("runtime")), target],
    );
    barrier
        .update_affine_aggregate_statement_after(&statement)
        .expect("retarget should create pending commit");
}

#[test]
fn terminal_aggregate_duplicate_obligations_are_rejected() {
    let mut spec = terminal_aggregate_fixture_spec();
    spec.slots.push(AffineAggregateSlotSpec::owning("first", "TerminalAggregateMember"));
    let error = validate_affine_aggregate_spec(&spec)
        .expect_err("duplicate aggregate obligations must fail validation");
    assert!(
        error.contains("duplicate obligation"),
        "diagnostic should mention duplicate obligations: {error}"
    );
}

#[test]
fn terminal_aggregate_missing_cleanup_is_rejected() {
    let mut spec = terminal_aggregate_fixture_spec();
    spec.cleanup_order = vec!["first".to_owned()];
    let error = validate_affine_aggregate_spec(&spec)
        .expect_err("missing aggregate cleanup must fail validation");
    assert!(error.contains("missing cleanup"), "diagnostic should mention missing cleanup: {error}");
}

#[test]
fn terminal_aggregate_retarget_requires_immediate_matching_commit() {
    let mut barrier = fixture_barrier();
    seed_runtime(&mut barrier);
    retarget(&mut barrier);
    let interposed = call_statement(
        "terminal_aggregate_observable_probe",
        vec![Expr::Literal { value: LiteralValue::Integer(1), span: test_span() }],
    );
    let error = barrier
        .check_affine_aggregate_statement_before(&interposed)
        .expect_err("observable interposition after retarget must fail");
    let reason = reason_of(error);
    assert!(
        reason.contains("cannot interpose") && reason.contains("matching"),
        "diagnostic should require matching commit: {reason}"
    );
}

#[test]
fn terminal_aggregate_declared_commit_clears_retarget_barrier() {
    let mut barrier = fixture_barrier();
    seed_runtime(&mut barrier);
    retarget(&mut barrier);
    let commit = call_statement("terminal_aggregate_commit_candidate", vec![mutable_ref(ident("runtime"))]);
    barrier
        .check_affine_aggregate_statement_before(&commit)
        .expect("matching commit may immediately follow retarget");
    barrier
        .update_affine_aggregate_statement_after(&commit)
        .expect("matching commit should clear pending transition");
    barrier
        .finish_affine_aggregate_statement_sequence()
        .expect("no pending aggregate commit should remain");
}

#[test]
fn terminal_aggregate_wrong_root_commit_does_not_clear_retarget_barrier() {
    let mut barrier = fixture_barrier();
    seed_runtime(&mut barrier);
    barrier.declare_binding("other_runtime".to_owned(), nominal_type("TerminalAggregateFixture"));
    retarget(&mut barrier);
    let wrong_root_commit =
        call_statement("terminal_aggregate_commit_candidate", vec![mutable_ref(ident("other_runtime"))]);
    let error = barrier
        .check_affine_aggregate_statement_before(&wrong_root_commit)
        .expect_err("wrong-root commit must not clear the retarget barrier");
    let reason = reason_of(error);
    assert!(
        reason.contains("matching") && reason.contains("runtime"),
        "diagnostic should require matching root commit: {reason}"
    );
}

#[test]
fn terminal_aggregate_commit_requires_mutable_aggregate_argument() {
    let mut barrier = fixture_barrier();
    seed_runtime(&mut barrier);
    retarget(&mut barrier);
    let non_mutable_commit =
        call_statement("terminal_aggregate_commit_candidate", vec![immutable_ref(ident("runtime"))]);
    let error = barrier
        .check_affine_aggregate_statement_before(&non_mutable_commit)
        .expect_err("commit without mutable aggregate argument must not clear the barrier");
    let reason = reason_of(error);
    assert!(
        reason.contains("matching") && reason.contains("runtime"),
        "diagnostic should require mutable matching root commit: {reason}"
    );
}

#[test]
fn terminal_aggregate_late_matching_argument_does_not_clear_retarget_barrier() {
    let mut barrier = fixture_barrier();
    seed_runtime(&mut barrier);
    barrier.declare_binding("other_runtime".to_owned(), nominal_type("TerminalAggregateFixture"));
    retarget(&mut barrier);
    let wrong_first_arg_commit = call_statement(
        "terminal_aggregate_commit_candidate",
        vec![mutable_ref(ident("other_runtime")), mutable_ref(ident("runtime"))],
    );
    let error = barrier
        .check_affine_aggregate_statement_before(&wrong_first_arg_commit)
        .expect_err("late matching argument must not satisfy aggregate commit");
    let reason = reason_of(error);
    assert!(
        reason.contains("matching") && reason.contains("runtime"),
        "diagnostic should require the first mutable aggregate argument to match: {reason}"
    );
}

#[test]
fn terminal_aggregate_undeclared_layout_transition_is_rejected() {
    let mut barrier = fixture_barrier();
    seed_runtime(&mut barrier);
    let statement = call_statement("terminal_aggregate_commit_undeclared", vec![mutable_ref(ident("runtime"))]);
    let error = barrier
        .update_affine_aggregate_statement_after(&statement)
        .expect_err("undeclared aggregate transition must fail");
    let reason = reason_of(error);
    assert!(
        reason.contains("undeclared layout transition"),
        "diagnostic should mention undeclared transition: {reason}"
    );
}

#[test]
fn pending_retarget_fails_the_end_of_the_sequence() {
    let mut barrier = fixture_barrier();
    seed_runtime(&mut barrier);
    retarget(&mut barrier);
    let reason = reason_of(barrier.finish_affine_aggregate_statement_sequence().unwrap_err());
    assert_eq!(
        reason,
        "missing matching 'terminal_aggregate_commit_candidate' commit after successful \
         'terminal_aggregate_retarget_member' retarget on aggregate 'runtime'"
    );
}

#[test]
fn interposition_reason_is_exact() {
    let mut barrier = fixture_barrier();
    seed_runtime(&mut barrier);
    retarget(&mut barrier);
    let probe = call_statement("probe", vec![]);
    let reason = reason_of(barrier.check_affine_aggregate_statement_before(&probe).unwrap_err());
    assert_eq!(
        reason,
        "fallible or observable operation cannot interpose after successful \
         'terminal_aggregate_retarget_member' retarget before matching \
         'terminal_aggregate_commit_candidate' commit on aggregate 'runtime'"
    );
}

#[test]
fn declared_transition_on_registered_root_is_accepted() {
    let mut barrier = fixture_barrier();
    seed_runtime(&mut barrier);
    let statement = call_statement("terminal_aggregate_commit_candidate", vec![mutable_ref(ident("runtime"))]);
    assert!(barrier.update_affine_aggregate_statement_after(&statement).is_ok());
    assert!(barrier.finish_affine_aggregate_statement_sequence().is_ok());
}

#[test]
fn unbound_root_is_not_an_aggregate() {
    let mut barrier = fixture_barrier();
    let statement = call_statement("terminal_aggregate_commit_undeclared", vec![mutable_ref(ident("runtime"))]);
    assert!(barrier.update_affine_aggregate_statement_after(&statement).is_ok());
}

#[test]
fn invalid_spec_is_not_registered() {
    let mut spec = terminal_aggregate_fixture_spec();
    spec.cleanup_order = vec!["first".to_owned()];
    let mut barrier = AffineAggregateBarrier::new();
    let error = barrier.register_affine_aggregate_spec(spec).unwrap_err();
    assert!(reason_of(error).contains("missing cleanup"));
}

#[test]
fn builtin_specs_validate() {
    assert_eq!(validate_affine_aggregate_spec(&editor_chord_runtime_spec()), Ok(()));
    assert_eq!(validate_affine_aggregate_spec(&terminal_aggregate_fixture_spec()), Ok(()));
    assert_eq!(terminal_affine_aggregate_specs().len(), 1);
}

#[test]
fn slot_and_rule_queries() {
    let spec = terminal_aggregate_fixture_spec();
    assert!(spec.has_slot("first"));
    assert!(!spec.has_slot("third"));
    assert_eq!(spec.slot_type("second"), Some("TerminalAggregateMember"));
    assert!(spec.has_transition_operation("terminal_aggregate_commit_candidate"));
    let rule = spec.retarget_rule("terminal_aggregate_retarget_member").expect("rule");
    assert_eq!(rule.commit_operation, "terminal_aggregate_commit_candidate");
    assert!(spec.helper_name_is_reserved_transition("terminal_aggregate_swap_things"));
    assert!(!spec.helper_name_is_reserved_transition("terminal_aggregate_probe"));
}

#[test]
fn cleanup_operations_by_resource() {
    assert_eq!(cleanup_operation_for_resource("TerminalSession"), Some("terminal_session_close_sync"));
    assert_eq!(cleanup_operation_for_resource("Unknown"), None);
}

/// The statements of a function body as the checker walks them: the binding a `let`
/// introduces, the statement itself, and the value it returns with its type, if any.
struct BodyStatement {
    binding: Option<(&'static str, CoreType)>,
    statement: Stmt,
    returned: Option<(Expr, CoreType)>,
}

fn new_fixture() -> Expr {
    Expr::Constructor {
        callee: Box::new(ident("TerminalAggregateFixture")),
        fields: vec![
            ConstructorField { name: "first".to_owned(), value: call("terminal_aggregate_member_new", vec![]) },
            ConstructorField { name: "second".to_owned(), value: call("terminal_aggregate_member_new", vec![]) },
        ],
        span: test_span(),
    }
}

fn let_fixture(name: &'static str) -> BodyStatement {
    BodyStatement {
        binding: Some((name, nominal_type("TerminalAggregateFixture"))),
        statement: Stmt::Let { name: name.to_owned(), initializer: Some(new_fixture()), span: test_span() },
        returned: None,
    }
}

fn let_candidate() -> BodyStatement {
    BodyStatement {
        binding: Some(("candidate", nominal_type("TerminalAggregateMember"))),
        statement: Stmt::Let {
            name: "candidate".to_owned(),
            initializer: Some(call("terminal_aggregate_member_new", vec![])),
            span: test_span(),
        },
        returned: None,
    }
}

fn plain(statement: Stmt) -> BodyStatement {
    BodyStatement { binding: None, statement, returned: None }
}

fn return_void() -> BodyStatement {
    plain(Stmt::Return {
        values: vec![ReturnValue { value: Expr::Literal { value: LiteralValue::Void, span: test_span() }, label: None }],
        span: test_span(),
    })
}

/// Run the aggregate barrier and the ownership escape rules over a function body, in
/// statement order, collecting the diagnostics the way a program check reports them.
fn check_body(body: Vec<BodyStatement>) -> Result<(), Vec<TypeError>> {
    let mut barrier = fixture_barrier();
    let mut ownership = OwnershipState::new();
    ownership.register_affine_resource_type("TerminalAggregateMember".to_owned());
    ownership.register_affine_resource_type("TerminalAggregateFixture".to_owned());
    let fields: NameMap<NameMap<CoreType>> = NameMap::new();
    let variants: NameMap<Vec<String>> = NameMap::new();
    let mut errors = Vec::new();
    for entry in body {
        if let Err(error) = barrier.check_affine_aggregate_statement_before(&entry.statement) {
            errors.push(error);
            continue;
        }
        if let Stmt::Let { initializer: Some(initializer), .. } = &entry.statement {
            let (_, core_type) = entry.binding.as_ref().expect("a let binds a name");
            if let Err(error) = check_value_escape(&barrier, &ownership, &fields, &variants, initializer, core_type, "be bound", true) {
                errors.push(error);
            }
        }
        if let Some((value, core_type)) = &entry.returned {
            if let Err(error) =
                check_value_escape(&barrier, &ownership, &fields, &variants, value, core_type, "escape through return", false)
            {
                errors.push(error);
            }
        }
        if let Err(error) = barrier.update_affine_aggregate_statement_after(&entry.statement) {
            errors.push(error);
        }
        if let Some((name, core_type)) = entry.binding {
            barrier.declare_binding(name.to_owned(), core_type.duplicate());
            register_owner_binding_if_affine(&mut ownership, &fields, &variants, name.to_owned(), &core_type, test_span());
        }
    }
    if let Err(error) = barrier.finish_affine_aggregate_statement_sequence() {
        errors.push(error);
    }
    if errors.is_empty() {
        Ok(())
    } else {
        Err(errors)
    }
}

#[test]
fn terminal_aggregate_source_constructor_and_commit_type_check() {
    let result = check_body(vec![
        let_fixture("runtime"),
        let_candidate(),
        plain(call_statement(
            "terminal_aggregate_retarget_member",
            vec![mutable_ref(ident("runtime")), ident("candidate")],
        )),
        plain(call_statement("terminal_aggregate_commit_candidate", vec![mutable_ref(ident("runtime"))])),
        return_void(),
    ]);
    assert!(
        result.is_ok(),
        "source aggregate constructor plus matching same-root commit should type-check: {result:?}"
    );
}

#[test]
fn terminal_aggregate_source_wrong_root_commit_is_rejected() {
    let errors = check_body(vec![
        let_fixture("runtime"),
        let_fixture("other_runtime"),
        let_candidate(),
        plain(call_statement(
            "terminal_aggregate_retarget_member",
            vec![mutable_ref(ident("runtime")), ident("candidate")],
        )),
        plain(call_statement("terminal_aggregate_commit_candidate", vec![mutable_ref(ident("other_runtime"))])),
        return_void(),
    ])
    .expect_err("wrong-root source commit should fail aggregate barrier");
    let rendered = format!("{errors:?}");
    assert!(
        rendered.contains("cannot interpose") && rendered.contains("runtime"),
        "wrong-root source commit should require matching aggregate root: {errors:?}"
    );
}

#[test]
fn terminal_aggregate_source_member_owner_escape_is_rejected() {
    let first = member(ident("runtime"), "first");
    let errors = check_body(vec![
        let_fixture("runtime"),
        BodyStatement {
            binding: None,
            statement: Stmt::Return { values: vec![ReturnValue { value: member(ident("runtime"), "first"), label: None }], span: test_span() },
            returned: Some((first, nominal_type("TerminalAggregateMember"))),
        },
    ])
    .expect_err("source member owner escape should be rejected");
    let rendered = format!("{errors:?}");
    assert!(
        rendered.contains("escape through return"),
        "source member owner escape should use normal ownership diagnostics: {errors:?}"
    );
}

fn fixture_ownership() -> OwnershipState {
    let mut ownership = OwnershipState::new();
    ownership.register_affine_resource_type("TerminalAggregateMember".to_owned());
    ownership.register_affine_resource_type("TerminalAggregateFixture".to_owned());
    ownership
}

#[test]
fn terminal_aggregate_constructor_accepts_fresh_provisional_members() {
    let barrier = fixture_barrier();
    let ownership = fixture_ownership();
    let fields: NameMap<NameMap<CoreType>> = NameMap::new();
    let variants: NameMap<Vec<String>> = NameMap::new();
    let field_expr = Expr::Propagate {
        call: Box::new(call("terminal_aggregate_member_new", vec![])),
        cause: None,
        span: test_span(),
    };
    let accepted = allow_affine_aggregate_constructor_field(
        &barrier,
        &ownership,
        &fields,
        &variants,
        "TerminalAggregateFixture",
        "first",
        &field_expr,
        &nominal_type("TerminalAggregateMember"),
    )
    .expect("fresh aggregate member acquisition should be accepted");
    assert!(accepted, "aggregate field should be handled by transaction metadata");
}

#[test]
fn terminal_aggregate_exported_member_owner_is_rejected() {
    let mut barrier = fixture_barrier();
    seed_runtime(&mut barrier);
    let ownership = fixture_ownership();
    let fields: NameMap<NameMap<CoreType>> = NameMap::new();
    let variants: NameMap<Vec<String>> = NameMap::new();
    let member_expr = member(ident("runtime"), "first");
    let error = check_value_escape(
        &barrier,
        &ownership,
        &fields,
        &variants,
        &member_expr,
        &nominal_type("TerminalAggregateMember"),
        "escape through return",
        false,
    )
    .expect_err("exporting a member owner must fail");
    let reason = match error {
        TypeError::ConstraintSolvingFailed { reason, .. } => reason,
        unexpected => {
            assert!(
                matches!(unexpected, TypeError::ConstraintSolvingFailed { .. }),
                "expected aggregate member owner escape diagnostic, got: {unexpected:?}"
            );
            String::new()
        }
    };
    assert!(reason.contains("escape through return"), "diagnostic should mention exported member owner context: {reason}");
}
