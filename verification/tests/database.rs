use cargo_cgp::cgp_patterns::ProviderRelationship;
use cargo_cgp::diagnostic_db::DiagnosticDatabase;
use cargo_cgp::raw_diagnostic::{ChildNote, DiagnosticLevel, RawDiagnostic, SpanInfo};
use cargo_cgp::root_cause::{
    deduplicate_delegation_notes, deduplicate_provider_relationships, is_contained_type_parameter,
    is_root_cause, is_transitive_failure,
};

fn span_at(file: &str, line: usize, column: usize) -> SpanInfo {
    SpanInfo {
        file_name: file.to_string(),
        line_start: line,
        column_start: column,
        column_end: column + 5,
        is_primary: true,
        label: None,
        text: Vec::new(),
    }
}

fn diag(message: &str, children: Vec<ChildNote>, spans: Vec<SpanInfo>) -> RawDiagnostic {
    RawDiagnostic {
        level: DiagnosticLevel::Error,
        message: message.to_string(),
        code: Some("E0277".to_string()),
        children,
        spans,
        rendered: None,
    }
}

fn note(message: &str) -> ChildNote {
    ChildNote { level: DiagnosticLevel::Note, message: message.to_string() }
}

fn help(message: &str) -> ChildNote {
    ChildNote { level: DiagnosticLevel::Help, message: message.to_string() }
}

const FIELD_HELP: &str = "the trait `HasField<Symbol<6, Chars<'h', Chars<'e', Chars<'i', Chars<'g', Chars<'h', Chars<'t', Nil>>>>>>>>` is not implemented for `Rectangle`";

#[test]
fn test_diagnostic_database_basic() {
    let db = DiagnosticDatabase::new();
    assert_eq!(db.get_all_entries().len(), 0);
}

#[test]
fn test_is_contained_type_parameter() {
    assert!(is_contained_type_parameter(
        "RectangleArea",
        "ScaledArea<RectangleArea>"
    ));
    assert!(is_contained_type_parameter("Foo", "Wrapper<Foo, Bar>"));
    assert!(is_contained_type_parameter("Bar", "Wrapper<Foo, Bar>"));
    assert!(!is_contained_type_parameter("Baz", "Wrapper<Foo, Bar>"));
    assert!(!is_contained_type_parameter(
        "Area",
        "ScaledArea<RectangleArea>"
    ));
}

#[test]
fn test_deduplicate_provider_relationships() {
    let relationships = vec![
        ProviderRelationship {
            provider_type: "RectangleArea".to_string(),
            component: "AreaCalculatorComponent".to_string(),
            context: "Rectangle".to_string(),
        },
        ProviderRelationship {
            provider_type: "ScaledArea<RectangleArea>".to_string(),
            component: "AreaCalculatorComponent".to_string(),
            context: "Rectangle".to_string(),
        },
    ];

    let deduped = deduplicate_provider_relationships(&relationships);

    // Should only keep the outer one (ScaledArea<RectangleArea>)
    assert_eq!(deduped.len(), 1);
    assert_eq!(deduped[0].provider_type, "ScaledArea<RectangleArea>");
}

#[test]
fn test_deduplicate_delegation_notes() {
    let notes = vec![
        "first".to_string(),
        "second".to_string(),
        "first".to_string(),
    ];
    let deduped = deduplicate_delegation_notes(&notes);
    assert_eq!(deduped, vec!["first".to_string(), "second".to_string()]);
}

#[test]
fn test_merge_keeps_known_facts() {
    // Merging two raw diagnostics at the same key never loses the
    // already-known field info, consumer name or error code.
    let mut db = DiagnosticDatabase::new();
    let first = diag(
        "the trait bound `R: CanUseComponent<AreaCalculatorComponent>` is not satisfied",
        vec![
            help(FIELD_HELP),
            note("required by a bound in `CanUseRectangle`"),
        ],
        vec![span_at("src/demo.rs", 41, 9)],
    );
    let mut second = diag(
        "the trait bound `R: CanUseComponent<AreaCalculatorComponent>` is not satisfied",
        vec![note(
            "required for `RectangleArea` to implement `IsProviderFor<AreaCalculatorComponent, Rectangle>`",
        )],
        vec![span_at("src/demo.rs", 41, 9)],
    );
    second.code = None;
    db.add_diagnostic(&first);
    db.add_diagnostic(&second);
    let entries = db.get_all_entries();
    assert_eq!(entries.len(), 1);
    let e = &entries[0];
    assert!(e.field_info.is_some());
    assert_eq!(e.field_info.as_ref().unwrap().field_name, "height");
    assert_eq!(e.consumer_trait, Some("CanUseRectangle".to_string()));
    assert_eq!(e.error_code, Some("E0277".to_string()));
    assert_eq!(e.provider_relationships.len(), 1);
    assert!(e.is_root_cause);
}

#[test]
fn test_suppression_of_generic_entry() {
    // Two raw diagnostics at the same location: the generic one is
    // suppressed once the field-specific one is known.
    let mut db = DiagnosticDatabase::new();
    let generic = diag(
        "the trait bound `FooComponent` thing is not satisfied",
        Vec::new(),
        vec![span_at("src/demo.rs", 7, 3)],
    );
    let specific = diag(
        "the trait bound `R: CanUseComponent<AreaCalculatorComponent>` is not satisfied",
        vec![help(FIELD_HELP)],
        vec![span_at("src/demo.rs", 7, 3)],
    );
    db.add_diagnostic(&generic);
    db.add_diagnostic(&specific);
    db.deduplicate();
    let all = db.get_all_entries();
    assert_eq!(all.len(), 2);
    let active = db.get_active_entries();
    assert_eq!(active.len(), 1);
    assert!(active[0].field_info.is_some());
}

#[test]
fn test_no_suppression_with_own_relationship() {
    // The generic entry survives when it carries a relationship fact of
    // its own.
    let mut db = DiagnosticDatabase::new();
    let generic = diag(
        "the trait bound `FooComponent` thing is not satisfied",
        vec![note(
            "required for `ScaledArea<RectangleArea>` to implement `IsProviderFor<FooComponent, Rectangle>`",
        )],
        vec![span_at("src/demo.rs", 7, 3)],
    );
    let specific = diag(
        "the trait bound `R: CanUseComponent<AreaCalculatorComponent>` is not satisfied",
        vec![help(FIELD_HELP)],
        vec![span_at("src/demo.rs", 7, 3)],
    );
    db.add_diagnostic(&generic);
    db.add_diagnostic(&specific);
    db.deduplicate();
    assert_eq!(db.get_active_entries().len(), 2);
}

#[test]
fn test_no_primary_span_is_dropped() {
    let mut db = DiagnosticDatabase::new();
    let d = diag("the trait bound `X` is not satisfied", Vec::new(), Vec::new());
    db.add_diagnostic(&d);
    assert_eq!(db.get_all_entries().len(), 0);
}

#[test]
fn test_root_cause_and_transitive() {
    let mut db = DiagnosticDatabase::new();
    let generic = diag(
        "the trait bound `FooComponent` thing is not satisfied",
        Vec::new(),
        vec![span_at("src/demo.rs", 7, 3)],
    );
    let specific = diag(
        "the trait bound `R: CanUseComponent<AreaCalculatorComponent>` is not satisfied",
        vec![help(FIELD_HELP)],
        vec![span_at("src/demo.rs", 7, 3)],
    );
    db.add_diagnostic(&generic);
    db.add_diagnostic(&specific);
    let all = db.get_all_entries();
    let generic_entry = all.iter().find(|e| e.field_info.is_none()).unwrap();
    let specific_entry = all.iter().find(|e| e.field_info.is_some()).unwrap();
    assert!(is_root_cause(specific_entry));
    assert!(!is_root_cause(generic_entry));
    assert!(is_transitive_failure(generic_entry, &all));
    assert!(!is_transitive_failure(specific_entry, &all));
}

#[test]
fn test_suppression_when_facts_are_subsumed() {
    // The generic entry's only relationship fact also stands in the
    // field-specific entry at the same location, so it adds nothing unique
    // and is suppressed.
    let shared_rel =
        "required for `ScaledArea<RectangleArea>` to implement `IsProviderFor<FooComponent, Rectangle>`";
    let mut db = DiagnosticDatabase::new();
    let generic = diag(
        "the trait bound `FooComponent` thing is not satisfied",
        vec![note(shared_rel)],
        vec![span_at("src/demo.rs", 7, 3)],
    );
    let specific = diag(
        "the trait bound `R: CanUseComponent<AreaCalculatorComponent>` is not satisfied",
        vec![help(FIELD_HELP), note(shared_rel)],
        vec![span_at("src/demo.rs", 7, 3)],
    );
    db.add_diagnostic(&generic);
    db.add_diagnostic(&specific);
    db.deduplicate();
    let active = db.get_active_entries();
    assert_eq!(active.len(), 1);
    assert!(active[0].field_info.is_some());
}

#[test]
fn test_relationship_only_entry_is_not_root_cause() {
    let mut db = DiagnosticDatabase::new();
    let generic = diag(
        "the trait bound `FooComponent` thing is not satisfied",
        vec![note(
            "required for `RectangleArea` to implement `IsProviderFor<FooComponent, Rectangle>`",
        )],
        vec![span_at("src/demo.rs", 9, 1)],
    );
    db.add_diagnostic(&generic);
    let all = db.get_all_entries();
    assert_eq!(all.len(), 1);
    assert_eq!(all[0].provider_relationships.len(), 1);
    assert!(!is_root_cause(&all[0]));
}
