use cargo_cgp::cgp_patterns::{
    derive_provider_trait_name, extract_balanced_generic, extract_chars_from_pattern,
    extract_component_from_can_use, extract_consumer_trait, extract_field_info,
    extract_field_name_from_symbol, extract_provider_relationship, extract_symbol_length,
    is_cgp_diagnostic, strip_module_prefixes,
};
use cargo_cgp::raw_diagnostic::{ChildNote, DiagnosticLevel, RawDiagnostic};

fn diag_with_children(message: &str, children: Vec<ChildNote>) -> RawDiagnostic {
    RawDiagnostic {
        level: DiagnosticLevel::Error,
        message: message.to_string(),
        code: None,
        children,
        spans: Vec::new(),
        rendered: None,
    }
}

#[test]
fn test_derive_provider_trait_name() {
    assert_eq!(
        derive_provider_trait_name("AreaCalculatorComponent"),
        Some("AreaCalculator".to_string())
    );
    assert_eq!(
        derive_provider_trait_name("FooComponent"),
        Some("Foo".to_string())
    );
    assert_eq!(derive_provider_trait_name("Component"), None);
    assert_eq!(derive_provider_trait_name("NoSuffix"), None);
}

#[test]
fn test_extract_symbol_length() {
    let text = "Symbol<6, Chars<'h', Chars<'e', ...>>>";
    assert_eq!(extract_symbol_length(text), Some(6));

    let text2 = "Symbol<5, Chars<'w', ...>>";
    assert_eq!(extract_symbol_length(text2), Some(5));
}

#[test]
fn test_extract_chars_from_pattern() {
    let text = "Chars<'h', Chars<'e', Chars<'i', Chars<'g', Chars<'h', Chars<'t', Nil>>>>>>";
    let chars = extract_chars_from_pattern(text);
    assert_eq!(chars, vec!['h', 'e', 'i', 'g', 'h', 't']);

    let text2 = "Chars<'w', Chars<'i', Chars<'d', Chars<'_', Chars<'h', Nil>>>>>";
    let chars2 = extract_chars_from_pattern(text2);
    // Underscores are placeholders and should be skipped
    assert_eq!(chars2, vec!['w', 'i', 'd', 'h']);
}

#[test]
fn test_extract_chars_skips_digits() {
    // Non-alphabetic marker characters are never collected.
    let text = "Chars<'1', Chars<'h', Nil>>";
    assert_eq!(extract_chars_from_pattern(text), vec!['h']);
}

#[test]
fn test_symbol_length_trims_spaces() {
    assert_eq!(extract_symbol_length("Symbol<  7 , Chars<'a', Nil>>"), Some(7));
}

#[test]
fn test_symbol_length_malformed() {
    assert_eq!(extract_symbol_length("Symbol<abc, x>"), None);
    assert_eq!(extract_symbol_length("no marker here"), None);
}

#[test]
fn test_balanced_extraction_nested() {
    let text = "CanUseComponent<Foo<Bar, Baz>> rest";
    let start = "CanUseComponent<".len();
    assert_eq!(
        extract_balanced_generic(text, start),
        Some("Foo<Bar, Baz>".to_string())
    );
}

#[test]
fn test_balanced_extraction_truncated() {
    // An unbalanced tail degrades to the best-effort substring.
    let text = "CanUseComponent<Foo<Bar";
    let start = "CanUseComponent<".len();
    assert_eq!(extract_balanced_generic(text, start), Some("Foo<Bar".to_string()));
}

#[test]
fn test_extract_component_from_can_use() {
    let info = extract_component_from_can_use(
        "the trait bound `R: CanUseComponent<AreaCalculatorComponent>` is not satisfied",
    )
    .expect("component expected");
    assert_eq!(info.component_type, "AreaCalculatorComponent");
    assert_eq!(info.provider_trait, Some("AreaCalculator".to_string()));
}

#[test]
fn test_extract_provider_relationship() {
    let rel = extract_provider_relationship(
        "required for `scaled::RectangleArea` to implement `IsProviderFor<AreaCalculatorComponent, Rectangle>`",
    )
    .expect("relationship expected");
    assert_eq!(rel.provider_type, "RectangleArea");
    assert_eq!(rel.component, "AreaCalculatorComponent");
    assert_eq!(rel.context, "Rectangle");
}

#[test]
fn test_extract_consumer_trait() {
    assert_eq!(
        extract_consumer_trait("required by a bound in `CanUseRectangle`"),
        Some("CanUseRectangle".to_string())
    );
    assert_eq!(extract_consumer_trait("nothing quoted"), None);
}

#[test]
fn test_strip_module_prefixes_idempotent() {
    // Namespace-prefix stripping is idempotent on ordinary names.
    let once = strip_module_prefixes("cgp::prelude::HasField and cgp::Check");
    assert_eq!(once, "HasField and Check");
    let twice = strip_module_prefixes(&once);
    assert_eq!(twice, once);
}

#[test]
fn test_field_name_complete_and_incomplete() {
    let complete = "`HasField<Symbol<6, Chars<'h', Chars<'e', Chars<'i', Chars<'g', Chars<'h', Chars<'t', Nil>>>>>>>>` is not implemented for `Rectangle`";
    assert_eq!(
        extract_field_name_from_symbol(complete),
        Some(("height".to_string(), true))
    );

    let incomplete = "`HasField<Symbol<6, Chars<'h', Chars<'e', Chars<'i', Chars<'g', Chars<'_', Chars<'t', Nil>>>>>>>>` is not implemented for `Rectangle`";
    assert_eq!(
        extract_field_name_from_symbol(incomplete),
        Some(("heigt".to_string(), false))
    );
}

#[test]
fn test_extract_field_info_reports_redaction() {
    let help = ChildNote {
        level: DiagnosticLevel::Help,
        message: "the trait `HasField<Symbol<6, Chars<'h', Chars<'e', Chars<'i', Chars<'g', Chars<'_', Chars<'t', Nil>>>>>>>>` is not implemented for `demo::Rectangle`".to_string(),
    };
    let d = diag_with_children("the trait bound is broken", vec![help]);
    let fi = extract_field_info(&d).expect("field info expected");
    assert_eq!(fi.field_name, "heigt");
    assert!(!fi.is_complete);
    assert!(fi.has_unknown_chars);
    assert_eq!(fi.target_type, "Rectangle");
}

#[test]
fn test_is_cgp_diagnostic_by_child() {
    let child = ChildNote {
        level: DiagnosticLevel::Note,
        message: "required for `R` to implement `IsProviderFor<C, X>`".to_string(),
    };
    let d = diag_with_children("some unrelated message", vec![child]);
    assert!(is_cgp_diagnostic(&d));
    let plain = diag_with_children("some unrelated message", Vec::new());
    assert!(!is_cgp_diagnostic(&plain));
}

#[test]
fn test_strip_module_prefixes_junction() {
    // A removal can leave a fresh prefix occurrence at the junction; the
    // stripping repeats until none remains.
    let joined = "ccgp::gp::".to_string();
    let once = strip_module_prefixes(&joined);
    assert_eq!(once, "");
    assert_eq!(strip_module_prefixes(&once), once);
}
