use opalescent_types::ast::DeclarationAnnotation;
use opalescent_types::builtin_types::{
    bytes_core_type, error_core_type, frame_clock_core_type, stdout_terminal_core_type, stdout_writer_core_type,
    string_builder_core_type,
};
use opalescent_types::fallible_constructors::{
    frame_clock_entry, lookup_fallible_constructor, production_registry, CanonicalTypeIdentity,
};
use opalescent_types::hot_reload::FunctionHotReloadMetadata;
use opalescent_types::terminal_metadata::{constructor_type_name, constructor_visibility};
use opalescent_types::token::{Position, Span};
use opalescent_types::types::CoreType;

fn name_of(t: &CoreType) -> &str {
    match t {
        CoreType::Generic { name, type_args } if type_args.is_empty() => name.as_str(),
        _ => panic!("expected a nominal type"),
    }
}

#[test]
fn builtin_handle_types() {
    assert_eq!(name_of(&bytes_core_type()), "Bytes");
    assert_eq!(name_of(&stdout_writer_core_type()), "StdoutWriter");
    assert_eq!(name_of(&stdout_terminal_core_type()), "StdoutTerminal");
    assert_eq!(name_of(&string_builder_core_type()), "StringBuilder");
    assert_eq!(name_of(&frame_clock_core_type()), "FrameClock");
    assert_eq!(name_of(&error_core_type("WriteError")), "WriteError");
}

#[test]
fn constructor_names_drop_the_variant() {
    assert_eq!(constructor_type_name("TerminalEvent.Key"), "TerminalEvent");
    assert_eq!(constructor_type_name("A.B.C"), "A");
    assert_eq!(constructor_type_name("Plain"), "Plain");
    assert_eq!(constructor_type_name(""), "");
}

#[test]
fn constructor_visibility_takes_the_first_annotation() {
    let s = Span::single(Position::start());
    let annotations = vec![
        DeclarationAnnotation::Other { span: s },
        DeclarationAnnotation::ConstructorVisibility { value: "module".to_owned(), span: s },
        DeclarationAnnotation::ConstructorVisibility { value: "public".to_owned(), span: s },
    ];
    assert_eq!(constructor_visibility(&annotations), Some("module".to_owned()));
    assert_eq!(constructor_visibility(&annotations[..1]), None);
}

#[test]
fn frame_clock_constructor_is_registered() {
    let entry = lookup_fallible_constructor(CanonicalTypeIdentity::new("FrameClock")).expect("registered");
    assert_eq!(entry.canonical_result_type_name, "FrameClock");
    assert_eq!(entry.runtime_symbol, "frame_clock_new");
    assert_eq!(entry.required_fields.len(), 1);
    assert_eq!(entry.required_fields[0].name, "frames_per_second");
    assert!(matches!(entry.required_fields[0].core_type, CoreType::Int32));
    assert_eq!(name_of(&entry.error_types[0]), "InvalidFrameRateError");
    assert_eq!(entry.lowering.error_field_index, 1);
    assert!(lookup_fallible_constructor(CanonicalTypeIdentity::new("TestFrameClock")).is_none());
    assert_eq!(production_registry().len(), 1);
    assert_eq!(frame_clock_entry().lowering.runtime_symbol, "frame_clock_new");
}

#[test]
fn identities_come_from_plain_nominal_types() {
    let plain = CoreType::Generic { name: "FrameClock".to_owned(), type_args: vec![] };
    assert_eq!(CanonicalTypeIdentity::from_core_type(&plain).map(|i| i.name), Some("FrameClock"));
    let applied = CoreType::Generic { name: "List".to_owned(), type_args: vec![CoreType::Int8] };
    assert!(CanonicalTypeIdentity::from_core_type(&applied).is_none());
    assert!(CanonicalTypeIdentity::from_core_type(&CoreType::Int8).is_none());
}

#[test]
fn hot_reload_stability() {
    let first = FunctionHotReloadMetadata::from_previous("f".to_owned(), vec![CoreType::Int8], vec![CoreType::Unit], None);
    assert!(first.signature_stable);
    let same = FunctionHotReloadMetadata::from_previous(
        "f".to_owned(),
        vec![CoreType::Int8],
        vec![CoreType::Unit],
        Some(&first),
    );
    assert!(same.signature_stable);
    let changed = FunctionHotReloadMetadata::from_previous(
        "f".to_owned(),
        vec![CoreType::Int16],
        vec![CoreType::Unit],
        Some(&first),
    );
    assert!(!changed.signature_stable);
    assert_eq!(changed.name, "f");
}
