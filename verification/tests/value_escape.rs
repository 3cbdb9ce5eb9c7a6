use opalescent_types::affine_aggregates::terminal_aggregate_fixture_spec;
use opalescent_types::aggregate_barrier::AffineAggregateBarrier;
use opalescent_types::ast::{ConstructorField, Expr, LiteralValue};
use opalescent_types::errors::TypeError;
use opalescent_types::name_map::NameMap;
use opalescent_types::ownership::OwnershipState;
use opalescent_types::token::{Position, Span};
use opalescent_types::types::CoreType;
use opalescent_types::value_escape::{
    allow_affine_aggregate_constructor_field, check_value_escape, check_value_escape_in, is_fresh_owner_binding_result,
};

fn at(offset: usize) -> Span {
    Span::single(Position::new(1, offset + 1, offset))
}

fn nominal(name: &str) -> CoreType {
    CoreType::Generic { name: name.to_owned(), type_args: Vec::new() }
}

fn ident(name: &str, offset: usize) -> Expr {
    Expr::Identifier { name: name.to_owned(), span: at(offset) }
}

fn acquire(offset: usize) -> Expr {
    Expr::Call { callee: Box::new(ident("acquire", offset)), args: Vec::new(), span: at(offset) }
}

fn reason(r: Result<(), TypeError>) -> (String, usize) {
    match r {
        Err(TypeError::ConstraintSolvingFailed { reason, span }) => (reason, span.offset),
        other => panic!("unexpected {other:?}"),
    }
}

fn setup() -> (AffineAggregateBarrier, OwnershipState, NameMap<NameMap<CoreType>>, NameMap<Vec<String>>) {
    let mut barrier = AffineAggregateBarrier::new();
    assert!(barrier.register_affine_aggregate_spec(terminal_aggregate_fixture_spec()).is_ok());
    let mut ownership = OwnershipState::new();
    ownership.register_affine_resource_type("TerminalAggregateMember".to_owned());
    ownership.register_affine_resource_type("TerminalAggregateFixture".to_owned());
    ownership.register_owner_binding("m".to_owned(), "TerminalAggregateMember".to_owned(), at(1));
    (barrier, ownership, NameMap::new(), NameMap::new())
}

fn sealed(first: Expr, slot: &str) -> Expr {
    Expr::Constructor {
        callee: Box::new(ident("TerminalAggregateFixture", 0)),
        fields: vec![ConstructorField { name: slot.to_owned(), value: first }],
        span: at(30),
    }
}

#[test]
fn fresh_values_may_become_owners() {
    let (barrier, ownership, fields, variants) = setup();
    let member = nominal("TerminalAggregateMember");
    let fixture = nominal("TerminalAggregateFixture");
    assert!(is_fresh_owner_binding_result(&barrier, &acquire(2), &member));
    assert!(is_fresh_owner_binding_result(&barrier, &sealed(acquire(3), "first"), &fixture));
    assert!(!is_fresh_owner_binding_result(&barrier, &sealed(acquire(3), "third"), &fixture));
    assert!(!is_fresh_owner_binding_result(&barrier, &sealed(ident("m", 3), "first"), &fixture));
    assert!(check_value_escape(&barrier, &ownership, &fields, &variants, &acquire(4), &member, "be stored", true).is_ok());
    assert_eq!(
        reason(check_value_escape_in(&barrier, &ownership, &fields, &variants, &acquire(4), &member, "be stored")),
        ("affine resource '<expression>' of type 'TerminalAggregateMember' cannot be stored".to_owned(), 4)
    );
    assert_eq!(
        reason(check_value_escape(&barrier, &ownership, &fields, &variants, &ident("m", 5), &member, "be stored", true)),
        ("affine resource 'm' of type 'TerminalAggregateMember' cannot be stored".to_owned(), 5)
    );
    let plain = Expr::Literal { value: LiteralValue::Integer(3), span: at(6) };
    assert!(check_value_escape_in(&barrier, &ownership, &fields, &variants, &plain, &CoreType::Int64, "be stored").is_ok());
    assert!(check_value_escape_in(&barrier, &ownership, &fields, &variants, &ident("x", 7), &CoreType::Int64, "be stored").is_ok());
}

#[test]
fn aggregate_fields_must_fill_declared_slots_freshly() {
    let (barrier, ownership, fields, variants) = setup();
    let member = nominal("TerminalAggregateMember");
    let check = |owner: &str, field: &str, value: &Expr, t: &CoreType| {
        allow_affine_aggregate_constructor_field(&barrier, &ownership, &fields, &variants, owner, field, value, t)
    };
    assert_eq!(check("TerminalAggregateFixture", "first", &acquire(8), &CoreType::Int8).ok(), Some(false));
    assert_eq!(check("Other", "first", &acquire(8), &member).ok(), Some(false));
    assert_eq!(check("TerminalAggregateFixture", "first", &acquire(8), &member).ok(), Some(true));
    let message = |r: Result<bool, TypeError>| match r {
        Err(TypeError::ConstraintSolvingFailed { reason, .. }) => reason,
        other => panic!("unexpected {other:?}"),
    };
    assert_eq!(
        message(check("TerminalAggregateFixture", "third", &acquire(8), &member)),
        "transactional affine aggregate 'TerminalAggregateFixture' has no declared slot 'third'"
    );
    assert_eq!(
        message(check("TerminalAggregateFixture", "first", &ident("m", 9), &member)),
        "transactional affine aggregate 'TerminalAggregateFixture' slot 'first' must be initialized from a fresh acquisition"
    );
    assert_eq!(
        message(check("TerminalAggregateFixture", "second", &acquire(8), &nominal("TerminalAggregateFixture"))),
        "transactional affine aggregate 'TerminalAggregateFixture' slot 'second' expected obligation 'TerminalAggregateMember', found 'TerminalAggregateFixture'"
    );
}
