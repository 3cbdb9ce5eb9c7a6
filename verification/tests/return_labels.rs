use opalescent_types::errors::TypeError;
use opalescent_types::return_labels::{render_return_labels, ReturnContexts};
use opalescent_types::token::{Position, Span};

fn at(offset: usize) -> Span {
    Span::single(Position::new(1, offset + 1, offset))
}

fn labels(names: &[&str]) -> Vec<String> {
    names.iter().map(|n| (*n).to_owned()).collect()
}

fn mismatch(r: Result<(), TypeError>) -> (String, String, usize) {
    match r {
        Err(TypeError::ReturnLabelMismatch { expected, found, span }) => (expected, found, span.offset),
        other => panic!("unexpected {other:?}"),
    }
}

#[test]
fn labels_render_in_order() {
    assert_eq!(render_return_labels(&[]), "unlabeled return");
    assert_eq!(render_return_labels(&labels(&["ok", "err"])), "ok, err");
}

#[test]
fn first_labeled_return_fixes_the_shape() {
    let mut contexts = ReturnContexts::new();
    assert!(contexts.ensure_return_label_mode(&labels(&["x"]), at(0)).is_ok());
    contexts.begin_return_context();
    assert!(contexts.ensure_return_label_mode(&labels(&["value", "error"]), at(1)).is_ok());
    assert!(contexts.ensure_return_label_mode(&labels(&["value", "error"]), at(2)).is_ok());
    assert_eq!(
        mismatch(contexts.ensure_return_label_mode(&labels(&["error", "value"]), at(3))),
        ("value, error".to_owned(), "error, value".to_owned(), 3)
    );
    assert_eq!(
        mismatch(contexts.ensure_return_label_mode(&[], at(4))),
        ("value, error".to_owned(), "unlabeled return".to_owned(), 4)
    );
    contexts.end_return_context();
}

#[test]
fn unlabeled_bodies_reject_labels_and_duplicates_are_reported() {
    let mut contexts = ReturnContexts::new();
    contexts.begin_return_context();
    assert_eq!(
        mismatch(contexts.ensure_return_label_mode(&labels(&["a", "b", "a"]), at(5))),
        ("unique labels".to_owned(), "duplicate label 'a'".to_owned(), 5)
    );
    assert!(contexts.ensure_return_label_mode(&[], at(6)).is_ok());
    assert!(contexts.ensure_return_label_mode(&[], at(7)).is_ok());
    assert_eq!(
        mismatch(contexts.ensure_return_label_mode(&labels(&["a"]), at(8))),
        ("unlabeled return".to_owned(), "a".to_owned(), 8)
    );
    contexts.begin_return_context();
    assert!(contexts.ensure_return_label_mode(&labels(&["a"]), at(9)).is_ok());
    contexts.end_return_context();
    assert!(contexts.ensure_return_label_mode(&[], at(10)).is_ok());
}
