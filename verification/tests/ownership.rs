use opalescent_types::ast::BorrowKind;
use opalescent_types::ownership::{borrow_kind_label, restore_entry, OwnershipState};
use opalescent_types::name_map::NameMap;
use opalescent_types::token::{Position, Span};

fn span(offset: usize) -> Span {
    Span::single(Position::new(1, offset + 1, offset))
}

#[test]
fn borrow_kind_labels() {
    assert_eq!(borrow_kind_label(BorrowKind::Owned), "owned");
    assert_eq!(borrow_kind_label(BorrowKind::Ref), "ref");
    assert_eq!(borrow_kind_label(BorrowKind::MutableRef), "mutable ref");
}

#[test]
fn scope_exit_restores_shadowed_owner() {
    let mut state = OwnershipState::new();
    state.register_owner_binding("timer".to_owned(), "MonotonicTimer".to_owned(), span(1));
    state.enter_scope();
    state.register_borrow_binding("timer".to_owned(), BorrowKind::Ref, span(5));
    assert!(state.is_ref_param("timer"));
    assert!(state.owner("timer").is_none());
    state.register_owner_binding("fresh".to_owned(), "CancellationSource".to_owned(), span(9));
    state.exit_scope();
    assert!(!state.is_ref_param("timer"));
    let owner = state.owner("timer").expect("outer owner restored");
    assert_eq!(owner.type_label, "MonotonicTimer");
    assert_eq!(owner.source_location, span(1));
    assert!(state.owner("fresh").is_none());
}

#[test]
fn moves_outlive_the_scope_unless_shadowed() {
    let mut state = OwnershipState::new();
    state.register_owner_binding("session".to_owned(), "TerminalSession".to_owned(), span(0));
    state.enter_scope();
    state.mark_owner_moved("session", span(7));
    state.exit_scope();
    assert_eq!(state.owner("session").unwrap().moved_at, Some(span(7)));
}

#[test]
fn function_borrows_are_scoped() {
    let mut state = OwnershipState::new();
    state.register_function_borrow_kinds("f".to_owned(), &[BorrowKind::Ref]);
    state.enter_scope();
    state.register_function_borrow_kinds("f".to_owned(), &[BorrowKind::MutableRef, BorrowKind::Owned]);
    assert_eq!(state.function_borrow_kinds_for_symbol("f"), Some(&[BorrowKind::MutableRef, BorrowKind::Owned][..]));
    state.clear_binding_ownership("f");
    assert_eq!(state.function_borrow_kinds_for_symbol("f"), None);
    state.exit_scope();
    assert_eq!(state.function_borrow_kinds_for_symbol("f"), Some(&[BorrowKind::Ref][..]));
}

#[test]
fn exit_without_scope_changes_nothing() {
    let mut state = OwnershipState::new();
    state.register_affine_resource_type("MonotonicTimer".to_owned());
    state.exit_scope();
    assert!(state.is_affine_resource_type_name("MonotonicTimer"));
    assert!(!state.is_affine_resource_type_name("Other"));
}

#[test]
fn restore_entry_inserts_or_removes() {
    let mut entries: NameMap<u8> = NameMap::new();
    entries.insert("a".to_owned(), 1);
    restore_entry(&mut entries, "a".to_owned(), None);
    assert!(!entries.contains_key("a"));
    restore_entry(&mut entries, "b".to_owned(), Some(2));
    assert_eq!(entries.get("b"), Some(&2));
}
